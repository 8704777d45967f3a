use git_detective::{ProjectStats, Stats, StringMap};

fn code(lines: usize) -> Stats {
    Stats { lines, blanks: 0, comments: 0, code: lines }
}

fn cell(stats: &ProjectStats, author: &str, language: &str) -> Option<Stats> {
    stats.contribs_by_name(author).and_then(|languages| languages.get(language).copied())
}

/// The entries of a report, sorted: what the report holds, whatever the order
/// in which it was built.
fn entries(stats: &ProjectStats) -> Vec<(String, String, Stats)> {
    let mut all = Vec::new();
    for (author, languages) in stats.iter() {
        for (language, stats) in languages.iter() {
            all.push((author.clone(), language.clone(), *stats));
        }
    }
    all.sort_by(|a, b| (&a.0, &a.1).cmp(&(&b.0, &b.1)));
    all
}

#[test]
fn new_project_stats_is_empty() {
    let stats = ProjectStats::new();
    assert!(stats.is_empty());
    assert_eq!(stats.total_lines(), 0);
    assert!(stats.contributors().is_empty());
    assert!(stats.contribs_by_name("A").is_none());
    assert_eq!(stats.total_contribs_by_name("A"), None);
    assert_eq!(stats.iter().count(), 0);
    assert!(ProjectStats::default().is_empty());
}

#[test]
fn insert_creates_and_adds() {
    let mut stats = ProjectStats::new();
    stats.insert("A", "Rust", Stats { lines: 3, blanks: 1, comments: 1, code: 1 });
    assert!(!stats.is_empty());
    assert_eq!(cell(&stats, "A", "Rust"), Some(Stats { lines: 3, blanks: 1, comments: 1, code: 1 }));
    stats.insert("A", "Rust", Stats { lines: 2, blanks: 0, comments: 0, code: 2 });
    assert_eq!(cell(&stats, "A", "Rust"), Some(Stats { lines: 5, blanks: 1, comments: 1, code: 3 }));
    stats.insert("A", "TOML", code(4));
    stats.insert("B", "Rust", code(7));
    assert_eq!(cell(&stats, "A", "TOML"), Some(code(4)));
    assert_eq!(cell(&stats, "B", "Rust"), Some(code(7)));
    assert_eq!(cell(&stats, "B", "TOML"), None);
    assert_eq!(stats.total_lines(), 16);
    let names: Vec<String> = stats.contributors().into_iter().cloned().collect();
    assert_eq!(names, vec!["A".to_string(), "B".to_string()]);
}

#[test]
fn insert_of_zero_still_names_the_author() {
    let mut stats = ProjectStats::new();
    stats.insert("A", "Rust", Stats::default());
    assert!(!stats.is_empty());
    assert_eq!(cell(&stats, "A", "Rust"), Some(Stats::default()));
    assert_eq!(stats.total_lines(), 0);
}

#[test]
fn total_contribs_by_name_sums_over_languages() {
    let mut stats = ProjectStats::new();
    stats.insert("A", "Rust", Stats { lines: 10, blanks: 1, comments: 2, code: 7 });
    stats.insert("A", "Markdown", Stats { lines: 5, blanks: 2, comments: 3, code: 0 });
    stats.insert("B", "Rust", code(100));
    assert_eq!(
        stats.total_contribs_by_name("A"),
        Some(Stats { lines: 15, blanks: 3, comments: 5, code: 7 })
    );
    assert_eq!(stats.total_contribs_by_name("B"), Some(code(100)));
    assert_eq!(stats.total_contribs_by_name("C"), None);
}

#[test]
fn from_puts_every_author_under_the_language() {
    let mut credits: StringMap<Stats> = StringMap::new();
    credits.insert("A".to_string(), code(5));
    credits.insert("B".to_string(), code(6));
    let stats = ProjectStats::from(("Rust", credits));
    assert_eq!(
        entries(&stats),
        vec![
            ("A".to_string(), "Rust".to_string(), code(5)),
            ("B".to_string(), "Rust".to_string(), code(6)),
        ]
    );
    assert_eq!(stats.total_lines(), 11);
}

fn sample(parts: &[(&str, &str, usize)]) -> ProjectStats {
    let mut stats = ProjectStats::new();
    for (author, language, lines) in parts {
        stats.insert(author, language, code(*lines));
    }
    stats
}

#[test]
fn merge_unites_authors_and_languages_and_adds_stats() {
    let mut left = sample(&[("A", "Rust", 1), ("A", "C", 2), ("B", "Rust", 3)]);
    let right = sample(&[("A", "Rust", 10), ("B", "Go", 20), ("C", "Rust", 30)]);
    left += right;
    assert_eq!(
        entries(&left),
        vec![
            ("A".to_string(), "C".to_string(), code(2)),
            ("A".to_string(), "Rust".to_string(), code(11)),
            ("B".to_string(), "Go".to_string(), code(20)),
            ("B".to_string(), "Rust".to_string(), code(3)),
            ("C".to_string(), "Rust".to_string(), code(30)),
        ]
    );
    assert_eq!(left.total_lines(), 66);
}

#[test]
fn merge_is_commutative() {
    let a = [("A", "Rust", 1), ("B", "Rust", 3)];
    let b = [("A", "Rust", 10), ("A", "C", 4), ("C", "Go", 30)];
    let mut ab = sample(&a);
    ab += sample(&b);
    let mut ba = sample(&b);
    ba += sample(&a);
    assert_eq!(entries(&ab), entries(&ba));
}

#[test]
fn merge_is_associative() {
    let a = [("A", "Rust", 1), ("B", "Rust", 3)];
    let b = [("A", "Rust", 10), ("A", "C", 4)];
    let c = [("B", "Rust", 5), ("C", "Go", 30)];
    let mut left = sample(&a);
    left += sample(&b);
    left += sample(&c);
    let mut bc = sample(&b);
    bc += sample(&c);
    let mut right = sample(&a);
    right += bc;
    assert_eq!(entries(&left), entries(&right));
}

#[test]
fn merge_with_empty_changes_nothing() {
    let a = [("A", "Rust", 1), ("B", "Rust", 3)];
    let mut left = sample(&a);
    left += ProjectStats::new();
    assert_eq!(entries(&left), entries(&sample(&a)));
    let mut right = ProjectStats::default();
    right += sample(&a);
    assert_eq!(entries(&right), entries(&sample(&a)));
}

#[test]
fn merging_triples_in_any_order_gives_the_same_report() {
    let triples = [
        ("A", "Rust", 1),
        ("B", "Rust", 2),
        ("A", "Go", 3),
        ("A", "Rust", 4),
        ("C", "C", 5),
        ("B", "Rust", 6),
    ];
    let forward = sample(&triples);
    let mut reversed = triples;
    reversed.reverse();
    let backward = sample(&reversed);
    assert_eq!(entries(&forward), entries(&backward));
    // a parallel split: two halves reduced on their own, then merged
    let mut split = sample(&triples[..2]);
    split += sample(&triples[2..]);
    assert_eq!(entries(&forward), entries(&split));
    assert_eq!(forward.total_lines(), 21);
    assert_eq!(split.total_lines(), 21);
}
