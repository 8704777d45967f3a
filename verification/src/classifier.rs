//! The kind of each line of a text, told with the help of tokei.
//!
//! tokei counts the lines of a text by kind, but does not say which line is
//! of which kind. So the text is counted up to the end of each of its lines
//! in turn, and the kind of a line is told from what the counts gain when the
//! line is added. A text of `n` lines is counted `n` times.
//!
//! This is not what tokei would say of each line had it read the whole text
//! at once. A line is told by what the text up to it counts to: a line that
//! opens a block whose end comes later is told as tokei counts it with the
//! block still open. And where the counts do not gain by a line what one line
//! of one kind adds, as on the line that closes a block of an embedded
//! language, the line gets no annotation, and with it no credit.
//!
//! Not every text is handed to tokei: see [`readable`].

use crate::snapshot::fallback_language;
use crate::stats::LineKind;
use std::collections::HashMap;
use std::str::FromStr;
use tokei::{Config, LanguageType};
use vstd::prelude::*;
use vstd::slice::slice_subrange;
use vstd::utf8::encode_utf8;

verus! {

broadcast use vstd::std_specs::hash::group_hash_axioms;

/// A byte with an ASCII capital letter turned into its small letter.
pub open spec fn folded(byte: u8) -> u8 {
    if 65 <= byte <= 90 {
        (byte + 32) as u8
    } else {
        byte
    }
}

/// Whether `word` stands in `text` at place `at`, capital and small ASCII
/// letters of the text taken for the same.
pub open spec fn stands_at(text: Seq<u8>, word: Seq<u8>, at: int) -> bool {
    &&& 0 <= at
    &&& at + word.len() <= text.len()
    &&& forall|j: int| 0 <= j < word.len() ==> folded(text[at + j]) == #[trigger] word[j]
}

/// Whether `word` stands anywhere in `text`, capital and small ASCII letters
/// of the text taken for the same. The word is given in small letters.
pub open spec fn mentions(text: Seq<u8>, word: Seq<u8>) -> bool {
    exists|at: int| stands_at(text, word, at)
}

/// The bytes of `jupyter`, the word in the name of the notebook language.
pub open spec fn notebook_word() -> Seq<u8> {
    seq![106u8, 117u8, 112u8, 121u8, 116u8, 101u8, 114u8]
}

/// The byte of a carriage return.
pub open spec fn carriage_return() -> Seq<u8> {
    seq![13u8]
}

/// The bytes of `<script`.
pub open spec fn script_tag() -> Seq<u8> {
    seq![60u8, 115u8, 99u8, 114u8, 105u8, 112u8, 116u8]
}

/// The bytes of `<style`.
pub open spec fn style_tag() -> Seq<u8> {
    seq![60u8, 115u8, 116u8, 121u8, 108u8, 101u8]
}

/// The bytes of `<template`.
pub open spec fn template_tag() -> Seq<u8> {
    seq![60u8, 116u8, 101u8, 109u8, 112u8, 108u8, 97u8, 116u8, 101u8]
}

/// Whether a text holds the opening of a block of an embedded language.
pub open spec fn opens_block(text: Seq<u8>) -> bool {
    mentions(text, script_tag()) || mentions(text, style_tag()) || mentions(text, template_tag())
}

/// Whether a text in a language is one that tokei is handed.
///
/// Two kinds of text are kept from it, because its counting can fail on
/// them:
///
/// - A text read as a notebook, at the top or inside another language. tokei
///   decodes the cells of a notebook from JSON, so what it counts then is not
///   the bytes of the text. A notebook is named by a name with `jupyter` in
///   it, in the language or in the text; tokei turns a name to small letters
///   before it looks it up, and no character but the ASCII letters themselves
///   turns into a letter of that word.
/// - A text with a carriage return and the opening of a `<script`, `<style`
///   or `<template` block. tokei cuts the white space around such a block,
///   and where a carriage return stands before the last character of the
///   block that is no white space, the cut has its end before its start.
pub open spec fn readable(language: Seq<char>, text: Seq<u8>) -> bool {
    &&& !mentions(encode_utf8(language), notebook_word())
    &&& !mentions(text, notebook_word())
    &&& !(mentions(text, carriage_return()) && opens_block(text))
}

/// The lines of code, of comment and of blanks, in that order, that tokei
/// counts in `text` read as the language of the given name; none where it
/// knows no language of that name. The library says nothing of what the
/// counts are.
pub uninterp spec fn kind_counts(language: Seq<char>, text: Seq<u8>) -> Option<(nat, nat, nat)>;

/// `tokei::LanguageType::from_str` for the language, then
/// `LanguageType::parse_from_slice` under tokei's default configuration and
/// `CodeStats::summarise` for the counts, the counts of embedded languages
/// included. The contract names what they return and claims nothing more. It
/// leaves out the texts on which the counting can fail: see [`readable`].
#[verifier::external_body]
fn count_kinds(language: &str, text: &[u8]) -> (counts: Option<(usize, usize, usize)>)
    requires
        readable(language@, text@),
    ensures
        match counts {
            Some((code, comments, blanks)) => kind_counts(language@, text@) == Some(
                (code as nat, comments as nat, blanks as nat),
            ),
            None => kind_counts(language@, text@) is None,
        },
{
    match LanguageType::from_str(language) {
        Ok(language) => {
            let stats = language.parse_from_slice(text, &Config::default()).summarise();
            Some((stats.code, stats.comments, stats.blanks))
        },
        Err(_) => None,
    }
}

/// Whether `word` stands anywhere in `text`, capital and small ASCII letters
/// of the text taken for the same.
pub fn holds(text: &[u8], word: &[u8]) -> (found: bool)
    ensures
        found == mentions(text@, word@),
{
    let n = text.len();
    let m = word.len();
    if m > n {
        proof {
            assert forall|at: int| !stands_at(text@, word@, at) by {}
        }
        return false;
    }
    let mut at: usize = 0;
    while at <= n - m
        invariant
            m <= n,
            n == text@.len(),
            m == word@.len(),
            at <= n - m + 1,
            forall|before: int| 0 <= before < at ==> !stands_at(text@, word@, before),
        decreases n - m + 1 - at,
    {
        let mut j: usize = 0;
        let mut same = true;
        while same && j < m
            invariant
                j <= m,
                m <= n,
                at <= n - m,
                n == text@.len(),
                m == word@.len(),
                same ==> forall|k: int| 0 <= k < j ==> folded(text@[at + k]) == #[trigger] word@[k],
                !same ==> !stands_at(text@, word@, at as int),
            decreases m - j + if same { 1int } else { 0int },
        {
            let byte = text[at + j];
            let small = if byte >= 65 && byte <= 90 {
                byte + 32
            } else {
                byte
            };
            if small != word[j] {
                same = false;
                proof {
                    assert(folded(text@[at + j]) != word@[j as int]);
                }
            } else {
                j += 1;
            }
        }
        if same {
            proof {
                assert(stands_at(text@, word@, at as int));
            }
            return true;
        }
        at += 1;
    }
    proof {
        assert forall|place: int| !stands_at(text@, word@, place) by {
            if stands_at(text@, word@, place) {
                assert(place < at);
            }
        }
    }
    false
}

/// Whether the text in the language is one that tokei is handed.
pub fn is_readable(language: &str, text: &[u8]) -> (fine: bool)
    ensures
        fine == readable(language@, text@),
{
    let notebook: Vec<u8> = vec![106u8, 117u8, 112u8, 121u8, 116u8, 101u8, 114u8];
    let cr: Vec<u8> = vec![13u8];
    let script: Vec<u8> = vec![60u8, 115u8, 99u8, 114u8, 105u8, 112u8, 116u8];
    let style: Vec<u8> = vec![60u8, 115u8, 116u8, 121u8, 108u8, 101u8];
    let template: Vec<u8> = vec![60u8, 116u8, 101u8, 109u8, 112u8, 108u8, 97u8, 116u8, 101u8];
    proof {
        assert(notebook@ =~= notebook_word());
        assert(cr@ =~= carriage_return());
        assert(script@ =~= script_tag());
        assert(style@ =~= style_tag());
        assert(template@ =~= template_tag());
    }
    if holds(language.as_bytes(), notebook.as_slice()) {
        return false;
    }
    if holds(text, notebook.as_slice()) {
        return false;
    }
    if holds(text, cr.as_slice()) {
        if holds(text, script.as_slice()) || holds(text, style.as_slice()) || holds(
            text,
            template.as_slice(),
        ) {
            return false;
        }
    }
    true
}

/// A word that stands in the beginning of a text stands in the text.
pub proof fn lemma_mentions_prefix(text: Seq<u8>, n: int, word: Seq<u8>)
    requires
        0 <= n <= text.len(),
        mentions(text.subrange(0, n), word),
    ensures
        mentions(text, word),
{
    let head = text.subrange(0, n);
    let at = choose|at: int| stands_at(head, word, at);
    assert(stands_at(text, word, at)) by {
        assert forall|j: int| 0 <= j < word.len() implies folded(text[at + j]) == #[trigger] word[j] by {
            assert(head[at + j] == text[at + j]);
        }
    }
}

/// The beginning of a text that tokei is handed is one that it is handed.
pub proof fn lemma_readable_prefix(language: Seq<char>, text: Seq<u8>, n: int)
    requires
        0 <= n <= text.len(),
        readable(language, text),
    ensures
        readable(language, text.subrange(0, n)),
{
    let head = text.subrange(0, n);
    if mentions(head, notebook_word()) {
        lemma_mentions_prefix(text, n, notebook_word());
    }
    if mentions(head, carriage_return()) {
        lemma_mentions_prefix(text, n, carriage_return());
    }
    if mentions(head, script_tag()) {
        lemma_mentions_prefix(text, n, script_tag());
    }
    if mentions(head, style_tag()) {
        lemma_mentions_prefix(text, n, style_tag());
    }
    if mentions(head, template_tag()) {
        lemma_mentions_prefix(text, n, template_tag());
    }
}

/// Where the lines that end within the first `n` bytes of a text end: one
/// past each line feed.
pub open spec fn ends_within(text: Seq<u8>, n: nat) -> Seq<int>
    decreases n,
{
    if n == 0 || n > text.len() {
        Seq::empty()
    } else if text[n - 1] == 10u8 {
        ends_within(text, (n - 1) as nat).push(n as int)
    } else {
        ends_within(text, (n - 1) as nat)
    }
}

/// Where the lines of a text end: one past each line feed, and at the end of
/// the text where its last line has none.
pub open spec fn line_ends(text: Seq<u8>) -> Seq<int> {
    if text.len() > 0 && text.last() != 10u8 {
        ends_within(text, text.len()).push(text.len() as int)
    } else {
        ends_within(text, text.len())
    }
}

/// The number of lines that end within the first `n` bytes of a text, the
/// last line counted as ended where the text ends.
pub open spec fn lines_within(text: Seq<u8>, n: nat) -> int {
    if n >= text.len() {
        line_ends(text).len() as int
    } else {
        ends_within(text, n).len() as int
    }
}

/// The kind of a line, told from the counts before and after it: the kind
/// whose count gains one while the others stay, and none otherwise.
pub open spec fn gain_kind(before: (nat, nat, nat), after: (nat, nat, nat)) -> Option<LineKind> {
    if after.0 == before.0 + 1 && after.1 == before.1 && after.2 == before.2 {
        Some(LineKind::Code)
    } else if after.0 == before.0 && after.1 == before.1 + 1 && after.2 == before.2 {
        Some(LineKind::Comment)
    } else if after.0 == before.0 && after.1 == before.1 && after.2 == before.2 + 1 {
        Some(LineKind::Blank)
    } else {
        None
    }
}

/// The kind of the line before `after`, told by [`gain_kind`], where the
/// counts gain what one line of one kind adds.
pub fn kind_of_gain(before: (usize, usize, usize), after: (usize, usize, usize)) -> (kind: Option<
    LineKind,
>)
    ensures
        kind == gain_kind(
            (before.0 as nat, before.1 as nat, before.2 as nat),
            (after.0 as nat, after.1 as nat, after.2 as nat),
        ),
{
    if after.0 < before.0 || after.1 < before.1 || after.2 < before.2 {
        None
    } else {
        LineKind::of_gain(after.0 - before.0, after.1 - before.1, after.2 - before.2)
    }
}

/// What tokei counts in the text up to the end of its first `lines` lines;
/// nothing is counted before the first line.
pub open spec fn counts_after(language: Seq<char>, text: Seq<u8>, lines: int) -> Option<
    (nat, nat, nat),
> {
    if lines <= 0 {
        Some((0nat, 0nat, 0nat))
    } else {
        kind_counts(language, text.subrange(0, line_ends(text)[lines - 1]))
    }
}

/// The kind of line `line` of the text, counted from 1 on; none where the
/// text has no such line or where the counts do not gain by it what one line
/// adds.
pub open spec fn line_kind(language: Seq<char>, text: Seq<u8>, line: int) -> Option<LineKind> {
    if 1 <= line <= line_ends(text).len() {
        match (counts_after(language, text, line - 1), counts_after(language, text, line)) {
            (Some(before), Some(after)) => gain_kind(before, after),
            _ => None,
        }
    } else {
        None
    }
}

/// Whether tokei knows how to count every line of the text.
pub open spec fn countable(language: Seq<char>, text: Seq<u8>) -> bool {
    forall|line: int|
        1 <= line <= line_ends(text).len() ==> (#[trigger] counts_after(
            language,
            text,
            line,
        )) is Some
}

/// The kind of each line of the text whose kind can be told, by line number
/// from 1 on.
pub open spec fn annotation(language: Seq<char>, text: Seq<u8>) -> Map<usize, LineKind> {
    Map::new(
        |line: usize| line_kind(language, text, line as int) is Some,
        |line: usize| line_kind(language, text, line as int)->0,
    )
}

/// The ends of the lines within the first `n` bytes are at most `n` many,
/// none of them beyond `n`.
proof fn lemma_ends_within(text: Seq<u8>, n: nat)
    requires
        n <= text.len(),
    ensures
        ends_within(text, n).len() <= n,
        forall|i: int| 0 <= i < ends_within(text, n).len() ==> 0 < #[trigger] ends_within(text, n)[i] <= n,
    decreases n,
{
    if n > 0 {
        lemma_ends_within(text, (n - 1) as nat);
    }
}

/// The kind of each line of `text` read as the language named `language`, by
/// line number from 1 on.
///
/// There is none where the text is not one that tokei is handed
/// ([`readable`]), and none where tokei cannot count one of its lines
/// ([`countable`]): that is where the text has a line and tokei knows no
/// language of that name. A text without lines has the empty annotation,
/// whatever the name of the language, as long as the name is one that tokei
/// is handed.
///
/// A line whose kind cannot be told has no annotation.
pub fn annotate(language: &str, text: &[u8]) -> (annotations: Option<HashMap<usize, LineKind>>)
    ensures
        match annotations {
            Some(annotations) => {
                &&& readable(language@, text@)
                &&& countable(language@, text@)
                &&& annotations@ == annotation(language@, text@)
            },
            None => !(readable(language@, text@) && countable(language@, text@)),
        },
{
    if !is_readable(language, text) {
        return None;
    }
    let mut annotations: HashMap<usize, LineKind> = HashMap::new();
    let mut counted: (usize, usize, usize) = (0, 0, 0);
    let mut lines: usize = 0;
    let n = text.len();
    let mut at: usize = 0;
    proof {
        assert(annotations@ =~= Map::<usize, LineKind>::empty());
    }
    while at < n
        invariant
            at <= n,
            n == text@.len(),
            readable(language@, text@),
            lines == lines_within(text@, at as nat),
            lines <= at,
            lines <= line_ends(text@).len(),
            counts_after(language@, text@, lines as int) == Some(
                (counted.0 as nat, counted.1 as nat, counted.2 as nat),
            ),
            forall|line: int|
                1 <= line <= lines ==> (#[trigger] counts_after(language@, text@, line)) is Some,
            forall|line: usize| #[trigger]
                annotations@.dom().contains(line) <==> 1 <= line <= lines && line_kind(
                    language@,
                    text@,
                    line as int,
                ) is Some,
            forall|line: usize|
                annotations@.dom().contains(line) ==> #[trigger] annotations@[line] == line_kind(
                    language@,
                    text@,
                    line as int,
                )->0,
        decreases n - at,
    {
        let byte = text[at];
        at += 1;
        let last = at == n;
        proof {
            lemma_ends_within(text@, (at - 1) as nat);
            lemma_ends_within(text@, at as nat);
            lemma_ends_prefix(text@, at as nat);
            lemma_ends_prefix(text@, (at - 1) as nat);
        }
        if byte == 10u8 || last {
            let prefix = slice_subrange(text, 0, at);
            proof {
                lemma_line_end(text@, at as nat, lines as int);
                lemma_readable_prefix(language@, text@, at as int);
            }
            match count_kinds(language, prefix) {
                Some(now) => {
                    let kind = kind_of_gain(counted, now);
                    lines += 1;
                    match kind {
                        Some(kind) => {
                            annotations.insert(lines, kind);
                        },
                        None => {},
                    }
                    counted = now;
                },
                None => {
                    proof {
                        assert(counts_after(language@, text@, lines + 1) is None);
                    }
                    return None;
                },
            }
        }
    }
    proof {
        lemma_ends_within(text@, n as nat);
        lemma_ends_prefix(text@, n as nat);
        assert(annotations@ =~= annotation(language@, text@));
    }
    Some(annotations)
}

/// The name under which a text is read: that of its language, or that of
/// plain text where its language is not known.
pub open spec fn reading(language: Option<&str>) -> Seq<char> {
    match language {
        Some(name) => name@,
        None => "Plain Text"@,
    }
}

/// The kind of each line of `text`, read as its language, or as plain text
/// where its language is not known. Where the text is not one that tokei is
/// handed, or tokei cannot count one of its lines, no line has an annotation.
pub fn classify(language: Option<&str>, text: &[u8]) -> (annotations: HashMap<usize, LineKind>)
    ensures
        annotations@ == if readable(reading(language), text@) && countable(
            reading(language),
            text@,
        ) {
            annotation(reading(language), text@)
        } else {
            Map::empty()
        },
{
    let name = match language {
        Some(name) => name,
        None => fallback_language(),
    };
    match annotate(name, text) {
        Some(annotations) => annotations,
        None => {
            let none: HashMap<usize, LineKind> = HashMap::new();
            proof {
                assert(none@ =~= Map::<usize, LineKind>::empty());
            }
            none
        },
    }
}

/// The ends of the lines within the first `n` bytes are the first ends of
/// the lines of the text.
proof fn lemma_ends_prefix(text: Seq<u8>, n: nat)
    requires
        n <= text.len(),
    ensures
        ends_within(text, n).len() <= line_ends(text).len(),
        forall|i: int|
            0 <= i < ends_within(text, n).len() ==> ends_within(text, n)[i] == #[trigger] line_ends(
                text,
            )[i],
        n == text.len() ==> line_ends(text).len() == ends_within(text, n).len() + if text.len() > 0
            && text.last() != 10u8 {
            1int
        } else {
            0int
        },
    decreases text.len() - n,
{
    if n < text.len() {
        lemma_ends_prefix(text, n + 1);
    }
}

/// A line that ends at byte `at`, at a line feed or at the end of the text,
/// is the next line after those that end before it.
proof fn lemma_line_end(text: Seq<u8>, at: nat, lines: int)
    requires
        0 < at <= text.len(),
        text[at - 1] == 10u8 || at == text.len(),
        lines == ends_within(text, (at - 1) as nat).len(),
    ensures
        lines < line_ends(text).len(),
        line_ends(text)[lines] == at,
{
    lemma_ends_prefix(text, at);
    lemma_ends_prefix(text, (at - 1) as nat);
    lemma_ends_within(text, at);
    if text[at - 1] == 10u8 {
        assert(ends_within(text, at)[lines] == at);
    } else {
        assert(text.last() != 10u8);
    }
}

} // verus!
