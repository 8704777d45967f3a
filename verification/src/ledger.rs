//! The mathematical model of project-wide statistics, and its merge.
//!
//! A [`Ledger`] maps each author to a map from language to tally. An entry
//! that is absent counts as zero. Ledgers form a commutative monoid under
//! [`merge`] with the empty ledger as identity: that is what lets the
//! statistics of many files be combined in any order and any grouping.

use crate::stats::Tally;
use crate::totals::{
    lemma_entry_within_sum, lemma_sum_balanced, lemma_sum_empty, lemma_sum_grow,
    lemma_sum_remove, map_sum, whole, within,
};
use vstd::prelude::*;

verus! {

/// What one author owns, by language.
pub type Languages = Map<Seq<char>, Tally>;

/// What every author owns, by language.
pub type Ledger = Map<Seq<char>, Languages>;

/// The tally under `language`, zero where there is none.
pub open spec fn tally_of(languages: Languages, language: Seq<char>) -> Tally {
    if languages.contains_key(language) {
        languages[language]
    } else {
        Tally::zero()
    }
}

/// The languages of `author`, none where the ledger does not hold them.
pub open spec fn languages_of(ledger: Ledger, author: Seq<char>) -> Languages {
    if ledger.contains_key(author) {
        ledger[author]
    } else {
        Map::empty()
    }
}

/// What `author` owns in `language`, zero where the ledger has no such entry.
pub open spec fn cell(ledger: Ledger, author: Seq<char>, language: Seq<char>) -> Tally {
    tally_of(languages_of(ledger, author), language)
}

/// The union of two language maps; a language that both hold gets the sum.
pub open spec fn merge_languages(a: Languages, b: Languages) -> Languages {
    Map::new(
        |language: Seq<char>| a.contains_key(language) || b.contains_key(language),
        |language: Seq<char>| tally_of(a, language).plus(tally_of(b, language)),
    )
}

/// The union of two ledgers: the authors of both; for an author in both, the
/// languages of both; for a language in both, the sum of the tallies.
pub open spec fn merge(a: Ledger, b: Ledger) -> Ledger {
    Map::new(
        |author: Seq<char>| a.contains_key(author) || b.contains_key(author),
        |author: Seq<char>| merge_languages(languages_of(a, author), languages_of(b, author)),
    )
}

/// The ledger that holds one entry.
pub open spec fn single(author: Seq<char>, language: Seq<char>, tally: Tally) -> Ledger {
    Map::empty().insert(author, Map::empty().insert(language, tally))
}

/// The ledger after `tally` is added to what `author` owns in `language`.
pub open spec fn record(ledger: Ledger, author: Seq<char>, language: Seq<char>, tally: Tally) -> Ledger {
    ledger.insert(
        author,
        languages_of(ledger, author).insert(language, cell(ledger, author, language).plus(tally)),
    )
}

/// The ledger of one file: each author of `credits` owns their tally in the
/// file's one language.
pub open spec fn of_file(language: Seq<char>, credits: Map<Seq<char>, Tally>) -> Ledger {
    Map::new(
        |author: Seq<char>| credits.contains_key(author),
        |author: Seq<char>| Map::empty().insert(language, credits[author]),
    )
}

/// Every tally of the ledger counts each line under exactly one kind.
pub open spec fn balanced(ledger: Ledger) -> bool {
    forall|author: Seq<char>, language: Seq<char>|
        ledger.contains_key(author) && ledger[author].contains_key(language)
            ==> #[trigger] ledger[author][language].balanced()
}

/// Two ledgers can be merged without any counter leaving `usize`.
pub open spec fn mergeable(a: Ledger, b: Ledger) -> bool {
    forall|author: Seq<char>, language: Seq<char>|
        (#[trigger] cell(a, author, language)).plus(cell(b, author, language)).fits()
}

/// Merging language maps is commutative.
pub proof fn lemma_merge_languages_commutative(a: Languages, b: Languages)
    ensures
        merge_languages(a, b) == merge_languages(b, a),
{
    assert(merge_languages(a, b) =~= merge_languages(b, a));
}

/// Merging language maps is associative.
pub proof fn lemma_merge_languages_associative(a: Languages, b: Languages, c: Languages)
    ensures
        merge_languages(merge_languages(a, b), c) == merge_languages(a, merge_languages(b, c)),
{
    assert(merge_languages(merge_languages(a, b), c) =~= merge_languages(
        a,
        merge_languages(b, c),
    ));
}

/// The empty language map is the identity of the merge.
pub proof fn lemma_merge_languages_empty(a: Languages)
    ensures
        merge_languages(a, Map::empty()) == a,
        merge_languages(Map::empty(), a) == a,
{
    assert(merge_languages(a, Map::empty()) =~= a);
    assert(merge_languages(Map::empty(), a) =~= a);
}

/// Merging ledgers is commutative: `a` into `b` gives what `b` into `a` gives.
pub proof fn lemma_merge_commutative(a: Ledger, b: Ledger)
    ensures
        merge(a, b) == merge(b, a),
{
    assert forall|author: Seq<char>|
        merge_languages(languages_of(a, author), languages_of(b, author)) == merge_languages(
            languages_of(b, author),
            languages_of(a, author),
        ) by {
        lemma_merge_languages_commutative(languages_of(a, author), languages_of(b, author));
    }
    assert(merge(a, b) =~= merge(b, a));
}

/// Merging ledgers is associative: any grouping gives the same ledger.
pub proof fn lemma_merge_associative(a: Ledger, b: Ledger, c: Ledger)
    ensures
        merge(merge(a, b), c) == merge(a, merge(b, c)),
{
    assert forall|author: Seq<char>|
        merge_languages(languages_of(merge(a, b), author), languages_of(c, author))
            == merge_languages(languages_of(a, author), languages_of(merge(b, c), author)) by {
        lemma_merge_languages_associative(
            languages_of(a, author),
            languages_of(b, author),
            languages_of(c, author),
        );
        lemma_merge_languages_empty(languages_of(c, author));
        lemma_merge_languages_empty(languages_of(a, author));
        assert(languages_of(merge(a, b), author) =~= merge_languages(
            languages_of(a, author),
            languages_of(b, author),
        ));
        assert(languages_of(merge(b, c), author) =~= merge_languages(
            languages_of(b, author),
            languages_of(c, author),
        ));
    }
    assert(merge(merge(a, b), c) =~= merge(a, merge(b, c)));
}

/// The empty ledger is the identity of the merge, on either side.
pub proof fn lemma_merge_empty(a: Ledger)
    ensures
        merge(a, Map::empty()) == a,
        merge(Map::empty(), a) == a,
{
    assert forall|author: Seq<char>| a.contains_key(author) implies merge_languages(
        a[author],
        Map::empty(),
    ) == a[author] && merge_languages(Map::empty(), a[author]) == a[author] by {
        lemma_merge_languages_empty(a[author]);
    }
    assert(merge(a, Map::empty()) =~= a);
    assert(merge(Map::empty(), a) =~= a);
}

/// Recording one tally is merging the ledger of that one entry.
pub proof fn lemma_record_is_merge(ledger: Ledger, author: Seq<char>, language: Seq<char>, tally: Tally)
    ensures
        record(ledger, author, language, tally) == merge(ledger, single(author, language, tally)),
{
    let one = single(author, language, tally);
    let merged = merge(ledger, one);
    let recorded = record(ledger, author, language, tally);
    assert forall|a: Seq<char>| merged.contains_key(a) implies #[trigger] merged[a]
        == recorded[a] by {
        if a == author {
            assert(merged[a] =~= recorded[a]);
        } else {
            lemma_merge_languages_empty(languages_of(ledger, a));
        }
    }
    assert(merged =~= recorded);
}

/// Merging keeps every tally balanced.
pub proof fn lemma_merge_balanced(a: Ledger, b: Ledger)
    requires
        balanced(a),
        balanced(b),
    ensures
        balanced(merge(a, b)),
{
    assert forall|author: Seq<char>, language: Seq<char>|
        merge(a, b).contains_key(author) && merge(a, b)[author].contains_key(
            language,
        ) implies #[trigger] merge(a, b)[author][language].balanced() by {
        if a.contains_key(author) && a[author].contains_key(language) {
            assert(a[author][language].balanced());
        }
        if b.contains_key(author) && b[author].contains_key(language) {
            assert(b[author][language].balanced());
        }
    }
}

/// What one author owns over all languages.
pub open spec fn language_total(languages: Languages) -> Tally {
    map_sum(languages, whole())
}

/// An author weighs what they own over all languages.
pub open spec fn owned() -> spec_fn(Languages) -> Tally {
    |languages: Languages| language_total(languages)
}

/// What all authors own over all languages.
pub open spec fn total(ledger: Ledger) -> Tally {
    map_sum(ledger, owned())
}

/// The ledger holds finitely many authors, each with finitely many
/// languages.
pub open spec fn finite(ledger: Ledger) -> bool {
    &&& ledger.dom().finite()
    &&& forall|author: Seq<char>|
        ledger.contains_key(author) ==> (#[trigger] ledger[author]).dom().finite()
}

/// Adding `tally` to what a language holds adds `tally` to the author's total.
pub proof fn lemma_language_total_grows(languages: Languages, language: Seq<char>, tally: Tally)
    requires
        languages.dom().finite(),
    ensures
        language_total(
            languages.insert(language, tally_of(languages, language).plus(tally)),
        ) == language_total(languages).plus(tally),
        languages.insert(language, tally_of(languages, language).plus(tally)).dom().finite(),
{
    lemma_sum_grow(
        languages,
        whole(),
        language,
        tally_of(languages, language).plus(tally),
        tally,
    );
}

/// Recording a tally adds it to the total of the ledger.
pub proof fn lemma_total_record(ledger: Ledger, author: Seq<char>, language: Seq<char>, tally: Tally)
    requires
        finite(ledger),
    ensures
        total(record(ledger, author, language, tally)) == total(ledger).plus(tally),
        finite(record(ledger, author, language, tally)),
{
    let held = languages_of(ledger, author);
    let grown = held.insert(language, cell(ledger, author, language).plus(tally));
    lemma_language_total_grows(held, language, tally);
    lemma_sum_empty::<Tally>(whole());
    lemma_sum_grow(ledger, owned(), author, grown, tally);
}

/// The total of a merge of language maps is the sum of their totals.
pub proof fn lemma_language_total_merge(a: Languages, b: Languages)
    requires
        a.dom().finite(),
        b.dom().finite(),
    ensures
        language_total(merge_languages(a, b)) == language_total(a).plus(language_total(b)),
        merge_languages(a, b).dom().finite(),
    decreases b.dom().len(),
{
    if b.dom().len() == 0 {
        assert(b =~= Map::empty());
        lemma_merge_languages_empty(a);
        lemma_sum_empty::<Tally>(whole());
    } else {
        let language = b.dom().choose();
        let rest = b.remove(language);
        lemma_language_total_merge(a, rest);
        lemma_sum_remove(b, whole(), language);
        let merged = merge_languages(a, rest);
        lemma_language_total_grows(merged, language, b[language]);
        assert(merge_languages(a, b) =~= merged.insert(
            language,
            tally_of(merged, language).plus(b[language]),
        ));
    }
}

/// The total of a merge of ledgers is the sum of their totals: merging
/// neither loses a line nor counts one twice.
pub proof fn lemma_total_merge(a: Ledger, b: Ledger)
    requires
        finite(a),
        finite(b),
    ensures
        total(merge(a, b)) == total(a).plus(total(b)),
        finite(merge(a, b)),
    decreases b.dom().len(),
{
    if b.dom().len() == 0 {
        assert(b =~= Map::empty());
        lemma_merge_empty(a);
        lemma_sum_empty::<Languages>(owned());
    } else {
        let author = b.dom().choose();
        let rest = b.remove(author);
        lemma_total_merge(a, rest);
        lemma_sum_remove(b, owned(), author);
        let merged = merge(a, rest);
        let held = languages_of(merged, author);
        let grown = merge_languages(held, b[author]);
        assert(held.dom().finite());
        lemma_language_total_merge(held, b[author]);
        lemma_sum_empty::<Tally>(whole());
        lemma_sum_grow(merged, owned(), author, grown, language_total(b[author]));
        assert(held =~= languages_of(a, author)) by {
            lemma_merge_languages_empty(languages_of(a, author));
        }
        assert forall|other: Seq<char>| merge(a, b).contains_key(other) implies #[trigger] merge(
            a,
            b,
        )[other] == merged.insert(author, grown)[other] by {
            if other != author {
                assert(languages_of(b, other) == languages_of(rest, other));
            }
        }
        assert(merge(a, b) =~= merged.insert(author, grown));
    }
}

/// The total of the ledger of one file is the sum of what the file credits.
pub proof fn lemma_total_of_file(language: Seq<char>, credits: Map<Seq<char>, Tally>)
    requires
        credits.dom().finite(),
    ensures
        total(of_file(language, credits)) == map_sum(credits, whole()),
        finite(of_file(language, credits)),
    decreases credits.dom().len(),
{
    if credits.dom().len() == 0 {
        assert(credits =~= Map::empty());
        assert(of_file(language, credits) =~= Map::<Seq<char>, Languages>::empty());
        lemma_sum_empty::<Tally>(whole());
        lemma_sum_empty::<Languages>(owned());
    } else {
        let author = credits.dom().choose();
        let rest = credits.remove(author);
        lemma_total_of_file(language, rest);
        lemma_sum_remove(credits, whole(), author);
        let one = Map::<Seq<char>, Tally>::empty().insert(language, credits[author]);
        lemma_sum_empty::<Tally>(whole());
        lemma_language_total_grows(Map::empty(), language, credits[author]);
        assert(one =~= Map::<Seq<char>, Tally>::empty().insert(
            language,
            tally_of(Map::empty(), language).plus(credits[author]),
        ));
        lemma_sum_grow(of_file(language, rest), owned(), author, one, credits[author]);
        assert(of_file(language, credits) =~= of_file(language, rest).insert(author, one));
    }
}

/// No entry of a ledger holds more than the ledger holds in all.
pub proof fn lemma_cell_within_total(ledger: Ledger, author: Seq<char>, language: Seq<char>)
    requires
        finite(ledger),
    ensures
        within(cell(ledger, author, language), total(ledger)),
{
    if ledger.contains_key(author) && ledger[author].contains_key(language) {
        lemma_entry_within_sum(ledger, owned(), author);
        lemma_entry_within_sum(ledger[author], whole(), language);
    }
}

/// Two balanced ledgers whose lines together fit a `usize` can be merged
/// without any counter leaving `usize`.
pub proof fn lemma_mergeable(a: Ledger, b: Ledger)
    requires
        finite(a),
        finite(b),
        balanced(a),
        balanced(b),
        total(a).lines + total(b).lines <= usize::MAX,
    ensures
        mergeable(a, b),
{
    assert forall|author: Seq<char>, language: Seq<char>|
        (#[trigger] cell(a, author, language)).plus(cell(b, author, language)).fits() by {
        lemma_cell_within_total(a, author, language);
        lemma_cell_within_total(b, author, language);
        if a.contains_key(author) && a[author].contains_key(language) {
            assert(a[author][language].balanced());
        }
        if b.contains_key(author) && b[author].contains_key(language) {
            assert(b[author][language].balanced());
        }
    }
}

/// Recording a balanced tally keeps every tally balanced.
pub proof fn lemma_record_balanced(ledger: Ledger, author: Seq<char>, language: Seq<char>, tally: Tally)
    requires
        balanced(ledger),
        tally.balanced(),
    ensures
        balanced(record(ledger, author, language, tally)),
{
    let recorded = record(ledger, author, language, tally);
    assert forall|a: Seq<char>, l: Seq<char>|
        recorded.contains_key(a) && recorded[a].contains_key(l) implies #[trigger] recorded[a][l].balanced() by {
        if ledger.contains_key(a) && ledger[a].contains_key(l) {
            assert(ledger[a][l].balanced());
        }
    }
}

/// In a balanced ledger, what an author owns over all languages is balanced,
/// and so is what all authors own.
pub proof fn lemma_language_total_balanced(ledger: Ledger, author: Seq<char>)
    requires
        finite(ledger),
        balanced(ledger),
        ledger.contains_key(author),
    ensures
        language_total(ledger[author]).balanced(),
        within(language_total(ledger[author]), total(ledger)),
{
    assert forall|l: Seq<char>| ledger[author].contains_key(l) implies (#[trigger] whole()(
        ledger[author][l],
    )).balanced() by {
        assert(ledger[author][l].balanced());
    }
    lemma_sum_balanced(ledger[author], whole());
    lemma_entry_within_sum(ledger, owned(), author);
}

} // verus!
