//! Project-wide statistics: what every contributor owns, by language.

use crate::attribution::{creditable, tallies};
use crate::ledger::{
    balanced, cell, finite, language_total, languages_of, lemma_cell_within_total,
    lemma_language_total_balanced, lemma_merge_balanced, lemma_merge_languages_empty,
    lemma_mergeable, lemma_record_balanced, lemma_total_merge, lemma_total_of_file,
    lemma_total_record, merge, merge_languages, mergeable, of_file, owned, record, tally_of,
    total, Languages, Ledger,
};
use crate::stats::{Stats, Tally};
use crate::string_map::{lemma_next_key, StringMap};
use crate::totals::{
    lemma_entry_within_sum, lemma_sum_by_keys, lemma_sum_empty, lemma_sum_prefix, map_sum,
    sum_by_keys, whole, within,
};
use std::ops::AddAssign;
use vstd::prelude::*;
use vstd::std_specs::iter::IteratorSpec;

verus! {

/// Project Stats
///
/// Contains contributions for all contributors separated on language
#[derive(Debug)]
pub struct ProjectStats {
    stats: StringMap<StringMap<Stats>>,
}

/// The ledger that a map of statistics by author and language stands for.
pub open spec fn ledger_of(stats: Map<Seq<char>, StringMap<Stats>>) -> Ledger {
    stats.map_values(|languages: StringMap<Stats>| tallies(languages@))
}

impl View for ProjectStats {
    type V = Ledger;

    closed spec fn view(&self) -> Ledger {
        ledger_of(self.stats@)
    }
}

/// Adds to `mine` every entry of `theirs`: a language that both hold gets the
/// sum, any other is taken over.
fn merge_languages_into(mine: &mut StringMap<Stats>, theirs: &StringMap<Stats>)
    requires
        forall|language: Seq<char>|
            (#[trigger] tally_of(tallies(old(mine)@), language)).plus(
                tally_of(tallies(theirs@), language),
            ).fits(),
    ensures
        tallies(final(mine)@) == merge_languages(tallies(old(mine)@), tallies(theirs@)),
{
    let n = theirs.len();
    let ghost before = tallies(mine@);
    let ghost other = tallies(theirs@);
    let mut i: usize = 0;
    while i < n
        invariant
            i <= n,
            n == theirs.keys().len(),
            theirs.enumerated(),
            before == tallies(old(mine)@),
            other == tallies(theirs@),
            forall|language: Seq<char>|
                (#[trigger] tally_of(before, language)).plus(tally_of(other, language)).fits(),
            forall|language: Seq<char>| #[trigger]
                tallies(mine@).dom().contains(language) <==> before.dom().contains(language)
                    || theirs.keys().take(i as int).contains(language),
            forall|language: Seq<char>|
                tallies(mine@).dom().contains(language) ==> #[trigger] tallies(mine@)[language]
                    == if theirs.keys().take(i as int).contains(language) {
                    tally_of(before, language).plus(tally_of(other, language))
                } else {
                    before[language]
                },
        decreases n - i,
    {
        let language = theirs.key_at(i);
        let theirs_here = *theirs.value_at(i);
        let ghost done = theirs.keys().take(i as int);
        let ghost next = theirs.keys().take(i + 1);
        proof {
            lemma_next_key(theirs.keys(), i as int);
            assert(other[language@] == theirs_here@);
            assert(tally_of(before, language@).plus(tally_of(other, language@)).fits());
        }
        let ghost prior = mine@;
        match mine.position(language.as_str()) {
            Some(at) => {
                let held = *mine.value_at(at);
                proof {
                    assert(tallies(prior).dom().contains(language@));
                    assert(tallies(prior)[language@] == held@);
                }
                let sum = held + theirs_here;
                mine.replace_at(at, sum);
            },
            None => {
                proof {
                    assert(!tallies(prior).dom().contains(language@));
                }
                mine.insert(language.clone(), theirs_here);
            },
        }
        proof {
            assert forall|l: Seq<char>| #[trigger]
                tallies(mine@).dom().contains(l) <==> before.dom().contains(l) || next.contains(
                    l,
                ) by {
                assert(tallies(prior).dom().contains(l) <==> before.dom().contains(l)
                    || done.contains(l));
            }
            assert forall|l: Seq<char>| tallies(mine@).dom().contains(l) implies #[trigger] tallies(
                mine@,
            )[l] == if next.contains(l) {
                tally_of(before, l).plus(tally_of(other, l))
            } else {
                before[l]
            } by {
                if l != language@ {
                    assert(tallies(prior).dom().contains(l));
                    assert(tallies(prior)[l] == tallies(mine@)[l]);
                }
            }
        }
        i += 1;
    }
    proof {
        assert(theirs.keys().take(n as int) =~= theirs.keys());
        assert forall|l: Seq<char>| theirs.keys().contains(l) <==> other.dom().contains(l) by {
            if theirs.keys().contains(l) {
                let j = choose|j: int| 0 <= j < theirs.keys().len() && theirs.keys()[j] == l;
                assert(theirs@.contains_key(theirs.keys()[j]));
            }
        }
        assert(tallies(mine@) =~= merge_languages(before, other));
    }
}

/// What the statistics of one author add up to over all languages.
fn sum_languages(languages: &StringMap<Stats>) -> (sum: Stats)
    requires
        language_total(tallies(languages@)).fits(),
    ensures
        sum@ == language_total(tallies(languages@)),
        tallies(languages@).dom().finite(),
{
    let n = languages.len();
    let ghost values = tallies(languages@);
    proof {
        assert(values.dom() =~= languages@.dom());
        lemma_sum_by_keys(values, whole(), languages.keys());
    }
    let mut sum = Stats::default();
    let mut i: usize = 0;
    while i < n
        invariant
            i <= n,
            n == languages.keys().len(),
            values == tallies(languages@),
            sum_by_keys(values, whole(), languages.keys()) == language_total(values),
            language_total(values).fits(),
            sum@ == sum_by_keys(values, whole(), languages.keys().take(i as int)),
        decreases n - i,
    {
        let stats = *languages.value_at(i);
        proof {
            lemma_sum_prefix(values, whole(), languages.keys(), i + 1);
            assert(languages.keys().take(i + 1).drop_last() =~= languages.keys().take(i as int));
            assert(languages.keys().take(i + 1).last() == languages.keys()[i as int]);
        }
        sum = sum + stats;
        i += 1;
    }
    proof {
        assert(languages.keys().take(n as int) =~= languages.keys());
    }
    sum
}

/// Adds `stats` to what `name` owns in `lang`, creating the entry where
/// there is none.
fn record_into(map: &mut StringMap<StringMap<Stats>>, name: &str, lang: &str, stats: Stats)
    requires
        cell(ledger_of(old(map)@), name@, lang@).plus(stats@).fits(),
    ensures
        ledger_of(final(map)@) == record(ledger_of(old(map)@), name@, lang@, stats@),
{
    let ghost before = ledger_of(map@);
    let mut languages: StringMap<Stats> = match map.position(name) {
        Some(at) => map.replace_at(at, StringMap::new()),
        None => StringMap::new(),
    };
    proof {
        assert(tallies(languages@) =~= languages_of(before, name@));
    }
    let sum = match languages.get(lang) {
        Some(held) => *held + stats,
        None => stats,
    };
    languages.insert(lang.to_owned(), sum);
    proof {
        assert(tallies(languages@) =~= languages_of(before, name@).insert(
            lang@,
            cell(before, name@, lang@).plus(stats@),
        ));
    }
    map.insert(name.to_owned(), languages);
    proof {
        assert(ledger_of(map@) =~= record(before, name@, lang@, stats@));
    }
}

/// Merges `others` into `map`: the authors of both; for an author in both,
/// the languages of both; for a language in both, the sum.
fn merge_into(map: &mut StringMap<StringMap<Stats>>, others: &StringMap<StringMap<Stats>>)
    requires
        mergeable(ledger_of(old(map)@), ledger_of(others@)),
    ensures
        ledger_of(final(map)@) == merge(ledger_of(old(map)@), ledger_of(others@)),
{
    let ghost before = ledger_of(map@);
    let n = others.len();
    let mut i: usize = 0;
    while i < n
        invariant
            i <= n,
            n == others.keys().len(),
            others.enumerated(),
            before == ledger_of(old(map)@),
            mergeable(before, ledger_of(others@)),
            forall|author: Seq<char>| #[trigger]
                ledger_of(map@).dom().contains(author) <==> before.dom().contains(author)
                    || others.keys().take(i as int).contains(author),
            forall|author: Seq<char>|
                ledger_of(map@).dom().contains(author) ==> #[trigger] ledger_of(map@)[author] == if others.keys().take(
                    i as int,
                ).contains(author) {
                    merge_languages(languages_of(before, author), languages_of(ledger_of(others@), author))
                } else {
                    before[author]
                },
        decreases n - i,
    {
        let author = others.key_at(i);
        let theirs = others.value_at(i);
        let ghost done = others.keys().take(i as int);
        let ghost next = others.keys().take(i + 1);
        let ghost prior = ledger_of(map@);
        proof {
            lemma_next_key(others.keys(), i as int);
            assert(ledger_of(others@).dom().contains(author@));
            assert(ledger_of(others@)[author@] == tallies(theirs@));
            assert(prior.dom().contains(author@) == before.dom().contains(author@));
            assert(languages_of(prior, author@) == languages_of(before, author@)) by {
                if prior.dom().contains(author@) {
                    assert(prior[author@] == before[author@]);
                }
            }
            assert forall|language: Seq<char>|
                (#[trigger] tally_of(languages_of(before, author@), language)).plus(
                    tally_of(tallies(theirs@), language),
                ).fits() by {
                assert(cell(before, author@, language).plus(
                    cell(ledger_of(others@), author@, language),
                ).fits());
            }
        }
        match map.position(author.as_str()) {
            Some(at) => {
                let mut mine = map.replace_at(at, StringMap::new());
                proof {
                    assert(tallies(mine@) == languages_of(before, author@));
                }
                merge_languages_into(&mut mine, theirs);
                map.replace_at(at, mine);
            },
            None => {
                let mut mine: StringMap<Stats> = StringMap::new();
                proof {
                    assert(tallies(mine@) =~= languages_of(before, author@));
                }
                merge_languages_into(&mut mine, theirs);
                map.insert(author.clone(), mine);
            },
        }
        proof {
            assert(ledger_of(map@).dom().contains(author@));
            assert(ledger_of(map@)[author@] == merge_languages(
                languages_of(before, author@),
                languages_of(ledger_of(others@), author@),
            ));
            assert forall|a: Seq<char>| #[trigger]
                ledger_of(map@).dom().contains(a) <==> before.dom().contains(a) || next.contains(
                    a,
                ) by {
                assert(prior.dom().contains(a) <==> before.dom().contains(a) || done.contains(
                    a,
                ));
            }
            assert forall|a: Seq<char>| ledger_of(map@).dom().contains(a) implies #[trigger] ledger_of(map@)[a]
                == if next.contains(a) {
                merge_languages(languages_of(before, a), languages_of(ledger_of(others@), a))
            } else {
                before[a]
            } by {
                if a != author@ {
                    assert(prior.dom().contains(a));
                    assert(prior[a] == ledger_of(map@)[a]);
                }
            }
        }
        i += 1;
    }
    proof {
        assert(others.keys().take(n as int) =~= others.keys());
        assert forall|a: Seq<char>| others.keys().contains(a) <==> ledger_of(others@).dom().contains(
            a,
        ) by {
            if others.keys().contains(a) {
                let j = choose|j: int|
                    0 <= j < others.keys().len() && others.keys()[j] == a;
                assert(others@.contains_key(others.keys()[j]));
            }
        }
        assert forall|a: Seq<char>| ledger_of(map@).dom().contains(a) implies #[trigger] ledger_of(map@)[a]
            == merge(before, ledger_of(others@))[a] by {
            if !ledger_of(others@).dom().contains(a) {
                lemma_merge_languages_empty(before[a]);
            }
        }
        assert(ledger_of(map@) =~= merge(before, ledger_of(others@)));
    }
}

impl ProjectStats {
    #[verifier::type_invariant]
    spec fn inv(&self) -> bool {
        self.sound()
    }

    /// What holds of every `ProjectStats`: the authors and the languages of
    /// each are finitely many, every tally counts each line under exactly one
    /// kind, and all the lines together fit a `usize`.
    pub open spec fn sound(&self) -> bool {
        &&& finite(self@)
        &&& balanced(self@)
        &&& total(self@).lines <= usize::MAX
    }

    /// The authors in the order in which they were first recorded.
    pub closed spec fn authors(&self) -> Seq<Seq<char>> {
        self.stats.keys()
    }

    /// Construct a new ProjectStats
    pub fn new() -> (stats: Self)
        ensures
            stats@ == Map::<Seq<char>, Languages>::empty(),
            total(stats@) == Tally::zero(),
            stats.sound(),
    {
        let map: StringMap<StringMap<Stats>> = StringMap::new();
        proof {
            assert(ledger_of(map@) =~= Map::<Seq<char>, Languages>::empty());
            lemma_sum_empty::<Languages>(owned());
        }
        ProjectStats { stats: map }
    }

    /// Get total contributions by name
    pub fn total_contribs_by_name(&self, name: &str) -> (sum: Option<Stats>)
        ensures
            match sum {
                Some(stats) => self@.contains_key(name@) && stats@ == language_total(
                    self@[name@],
                ),
                None => !self@.contains_key(name@),
            },
    {
        proof {
            use_type_invariant(self);
        }
        match self.stats.get(name) {
            Some(contributions) => {
                proof {
                    lemma_language_total_balanced(self@, name@);
                }
                Some(sum_languages(contributions))
            },
            None => None,
        }
    }

    /// Check whether [`ProjectStats`](struct.ProjectStats.html) is empty
    pub fn is_empty(&self) -> (empty: bool)
        ensures
            empty == (self@ == Map::<Seq<char>, Languages>::empty()),
    {
        let empty = self.stats.is_empty();
        proof {
            if empty {
                assert(self@ =~= Map::<Seq<char>, Languages>::empty());
            } else {
                assert(self.stats@.dom() =~= self@.dom());
                if self@ == Map::<Seq<char>, Languages>::empty() {
                    assert(self.stats@ =~= Map::<Seq<char>, StringMap<Stats>>::empty());
                }
            }
        }
        empty
    }

    /// Get contributions by name broken down by language
    pub fn contribs_by_name(&self, name: &str) -> (found: Option<&StringMap<Stats>>)
        ensures
            match found {
                Some(languages) => self@.contains_key(name@) && tallies(languages@)
                    == self@[name@],
                None => !self@.contains_key(name@),
            },
    {
        self.stats.get(name)
    }

    /// Calculates the total amount of lines contributed to the Git Repository
    pub fn total_lines(&self) -> (sum: usize)
        ensures
            sum == total(self@).lines,
            self.sound(),
    {
        proof {
            use_type_invariant(self);
        }
        let n = self.stats.len();
        proof {
            assert(self@.dom() =~= self.stats@.dom());
            lemma_sum_by_keys(self@, owned(), self.stats.keys());
        }
        let mut sum: usize = 0;
        let mut i: usize = 0;
        while i < n
            invariant
                i <= n,
                n == self.stats.keys().len(),
                self.stats.enumerated(),
                self@.dom().finite(),
                sum_by_keys(self@, owned(), self.stats.keys()) == total(self@),
                total(self@).lines <= usize::MAX,
                sum == sum_by_keys(self@, owned(), self.stats.keys().take(i as int)).lines,
            decreases n - i,
        {
            let languages = self.stats.value_at(i);
            proof {
                let author = self.stats.keys()[i as int];
                assert(self@[author] == tallies(languages@));
                lemma_sum_prefix(self@, owned(), self.stats.keys(), i + 1);
                assert(self.stats.keys().take(i + 1).drop_last() =~= self.stats.keys().take(
                    i as int,
                ));
                assert(self.stats.keys().take(i + 1).last() == author);
                lemma_entry_within_sum(self@, owned(), author);
            }
            let m = languages.len();
            let ghost values = tallies(languages@);
            proof {
                assert(values.dom() =~= languages@.dom());
                lemma_sum_by_keys(values, whole(), languages.keys());
            }
            let mut lines: usize = 0;
            let mut j: usize = 0;
            while j < m
                invariant
                    j <= m,
                    m == languages.keys().len(),
                    values == tallies(languages@),
                    sum_by_keys(values, whole(), languages.keys()) == language_total(values),
                    language_total(values).lines <= usize::MAX,
                    lines == sum_by_keys(values, whole(), languages.keys().take(j as int)).lines,
                decreases m - j,
            {
                let stats = languages.value_at(j);
                proof {
                    lemma_sum_prefix(values, whole(), languages.keys(), j + 1);
                    assert(languages.keys().take(j + 1).drop_last() =~= languages.keys().take(
                        j as int,
                    ));
                    assert(languages.keys().take(j + 1).last() == languages.keys()[j as int]);
                }
                lines += stats.lines;
                j += 1;
            }
            proof {
                assert(languages.keys().take(m as int) =~= languages.keys());
            }
            sum += lines;
            i += 1;
        }
        proof {
            assert(self.stats.keys().take(n as int) =~= self.stats.keys());
        }
        sum
    }

    /// Get all Contributors, in the order in which they were first recorded
    pub fn contributors(&self) -> (names: Vec<&String>)
        ensures
            names@.len() == self.authors().len(),
            forall|i: int| 0 <= i < names@.len() ==> (#[trigger] names@[i])@ == self.authors()[i],
            self.authors().no_duplicates(),
            forall|i: int|
                0 <= i < self.authors().len() ==> self@.contains_key(#[trigger] self.authors()[i]),
            forall|author: Seq<char>| self@.contains_key(author) ==> self.authors().contains(author),
    {
        let n = self.stats.len();
        proof {
            assert(self@.dom() =~= self.stats@.dom());
        }
        let mut names: Vec<&String> = Vec::new();
        let mut i: usize = 0;
        while i < n
            invariant
                i <= n,
                n == self.stats.keys().len(),
                names@.len() == i,
                forall|j: int| 0 <= j < i ==> (#[trigger] names@[j])@ == self.stats.keys()[j],
            decreases n - i,
        {
            names.push(self.stats.key_at(i));
            i += 1;
        }
        names
    }

    /// Iterate over [`ProjectStats`](struct.ProjectStats.html): each author
    /// with their statistics by language, in the order of
    /// [`ProjectStats::authors`]
    pub fn iter(&self) -> (entries: std::slice::Iter<'_, (String, StringMap<Stats>)>)
        ensures
            entries.remaining().len() == self.authors().len(),
            forall|i: int|
                0 <= i < self.authors().len() ==> (#[trigger] entries.remaining()[i]).0@
                    == self.authors()[i] && tallies(entries.remaining()[i].1@)
                    == self@[self.authors()[i]],
    {
        self.stats.iter()
    }

    /// Adds `stats` to what `name` owns in `lang`, creating the entry where
    /// there is none.
    pub fn insert(&mut self, name: &str, lang: &str, stats: Stats)
        requires
            stats@.balanced(),
            total(old(self)@).lines + stats.lines <= usize::MAX,
        ensures
            final(self)@ == record(old(self)@, name@, lang@, stats@),
            total(final(self)@) == total(old(self)@).plus(stats@),
    {
        let ghost before = self@;
        proof {
            use_type_invariant(&*self);
            lemma_total_record(before, name@, lang@, stats@);
            lemma_record_balanced(before, name@, lang@, stats@);
            lemma_cell_within_total(before, name@, lang@);
            if before.contains_key(name@) && before[name@].contains_key(lang@) {
                assert(before[name@][lang@].balanced());
            }
            assert(ledger_of(Map::<Seq<char>, StringMap<Stats>>::empty()) =~= Map::<
                Seq<char>,
                Languages,
            >::empty());
            lemma_sum_empty::<Languages>(owned());
        }
        let mut map: StringMap<StringMap<Stats>> = StringMap::new();
        std::mem::swap(&mut map, &mut self.stats);
        record_into(&mut map, name, lang, stats);
        self.stats = map;
    }

    /// The statistics of one file: each author of the credits owns their
    /// statistics in the file's language.
    pub fn from(lang_stats: (&str, StringMap<Stats>)) -> (stats: Self)
        requires
            creditable(tallies(lang_stats.1@)),
        ensures
            stats@ == of_file(lang_stats.0@, tallies(lang_stats.1@)),
            total(stats@) == map_sum(tallies(lang_stats.1@), whole()),
    {
        let (lang, file_stats) = lang_stats;
        let ghost credits = tallies(file_stats@);
        let mut map: StringMap<StringMap<Stats>> = StringMap::new();
        let n = file_stats.len();
        let mut i: usize = 0;
        proof {
            assert(ledger_of(map@) =~= Map::<Seq<char>, Languages>::empty());
        }
        while i < n
            invariant
                i <= n,
                n == file_stats.keys().len(),
                file_stats.enumerated(),
                credits == tallies(file_stats@),
                forall|author: Seq<char>| #[trigger]
                    ledger_of(map@).dom().contains(author) <==> file_stats.keys().take(
                        i as int,
                    ).contains(author),
                forall|author: Seq<char>|
                    ledger_of(map@).dom().contains(author) ==> #[trigger] ledger_of(map@)[author]
                        == Map::<Seq<char>, Tally>::empty().insert(lang@, credits[author]),
            decreases n - i,
        {
            let author = file_stats.key_at(i);
            let stats = *file_stats.value_at(i);
            let ghost done = file_stats.keys().take(i as int);
            let ghost next = file_stats.keys().take(i + 1);
            let ghost prior = ledger_of(map@);
            proof {
                lemma_next_key(file_stats.keys(), i as int);
                assert(!prior.dom().contains(author@));
            }
            record_into(&mut map, author.as_str(), lang, stats);
            proof {
                let now = ledger_of(map@);
                assert(now[author@] =~= Map::<Seq<char>, Tally>::empty().insert(
                    lang@,
                    credits[author@],
                ));
                assert forall|a: Seq<char>| #[trigger] now.dom().contains(a) <==> next.contains(
                    a,
                ) by {
                    assert(prior.dom().contains(a) <==> done.contains(a));
                }
                assert forall|a: Seq<char>| now.dom().contains(a) implies #[trigger] now[a]
                    == Map::<Seq<char>, Tally>::empty().insert(lang@, credits[a]) by {
                    if a != author@ {
                        assert(prior.dom().contains(a));
                    }
                }
            }
            i += 1;
        }
        proof {
            assert(file_stats.keys().take(n as int) =~= file_stats.keys());
            assert forall|a: Seq<char>| file_stats.keys().contains(a) <==> credits.dom().contains(
                a,
            ) by {
                if file_stats.keys().contains(a) {
                    let j = choose|j: int|
                        0 <= j < file_stats.keys().len() && file_stats.keys()[j] == a;
                    assert(file_stats@.contains_key(file_stats.keys()[j]));
                }
            }
            assert(ledger_of(map@) =~= of_file(lang@, credits));
            lemma_total_of_file(lang@, credits);
            assert forall|a: Seq<char>, l: Seq<char>|
                of_file(lang@, credits).contains_key(a) && of_file(lang@, credits)[a].contains_key(
                    l,
                ) implies #[trigger] of_file(lang@, credits)[a][l].balanced() by {
                assert(credits[a].balanced());
            }
        }
        ProjectStats { stats: map }
    }
}

impl Default for ProjectStats {
    /// The empty statistics, the identity of the merge.
    fn default() -> (stats: Self)
        ensures
            stats@ == Map::<Seq<char>, Languages>::empty(),
            total(stats@) == Tally::zero(),
    {
        ProjectStats::new()
    }
}

impl AddAssign for ProjectStats {
    /// Merges `other` into `self`: the authors of both; for an author in
    /// both, the languages of both; for a language in both, the sum.
    fn add_assign(&mut self, other: ProjectStats)
        requires
            total(old(self)@).lines + total(other@).lines <= usize::MAX,
        ensures
            final(self)@ == merge(old(self)@, other@),
            total(final(self)@) == total(old(self)@).plus(total(other@)),
    {
        proof {
            use_type_invariant(&*self);
            use_type_invariant(&other);
            lemma_mergeable(self@, other@);
            lemma_total_merge(self@, other@);
            lemma_merge_balanced(self@, other@);
            assert(ledger_of(Map::<Seq<char>, StringMap<Stats>>::empty()) =~= Map::<
                Seq<char>,
                Languages,
            >::empty());
            lemma_sum_empty::<Languages>(owned());
        }
        let mut map: StringMap<StringMap<Stats>> = StringMap::new();
        std::mem::swap(&mut map, &mut self.stats);
        merge_into(&mut map, &other.stats);
        self.stats = map;
    }
}

} // verus!
