use git_detective::{DiffStats, LineKind, Stats};

#[test]
fn stats_default_is_zero() {
    let zero = Stats::default();
    assert_eq!(zero, Stats { lines: 0, blanks: 0, comments: 0, code: 0 });
}

#[test]
fn stats_add_is_component_wise() {
    let a = Stats { lines: 3, blanks: 1, comments: 1, code: 1 };
    let b = Stats { lines: 2, blanks: 0, comments: 0, code: 2 };
    assert_eq!(a + b, Stats { lines: 5, blanks: 1, comments: 1, code: 3 });
    let mut c = a;
    c += b;
    assert_eq!(c, a + b);
}

#[test]
fn stats_add_is_commutative_and_associative() {
    let a = Stats { lines: 6, blanks: 1, comments: 2, code: 3 };
    let b = Stats { lines: 4, blanks: 4, comments: 0, code: 0 };
    let c = Stats { lines: 9, blanks: 0, comments: 0, code: 9 };
    assert_eq!(a + b, b + a);
    assert_eq!((a + b) + c, a + (b + c));
    assert_eq!(a + Stats::default(), a);
    assert_eq!(Stats::default() + a, a);
}

#[test]
fn stats_counts_a_line_under_its_kind() {
    let mut stats = Stats::default();
    stats += LineKind::Code;
    assert_eq!(stats, Stats { lines: 1, blanks: 0, comments: 0, code: 1 });
    stats += LineKind::Comment;
    assert_eq!(stats, Stats { lines: 2, blanks: 0, comments: 1, code: 1 });
    stats += LineKind::Blank;
    assert_eq!(stats, Stats { lines: 3, blanks: 1, comments: 1, code: 1 });
    assert_eq!(stats.lines, stats.code + stats.comments + stats.blanks);
}

#[test]
fn diff_stats_default_is_zero() {
    assert_eq!(DiffStats::default(), DiffStats { insertions: 0, deletions: 0 });
}

#[test]
fn diff_stats_add_is_component_wise() {
    let mut total = DiffStats::default();
    total += DiffStats { insertions: 10, deletions: 0 };
    total += DiffStats { insertions: 0, deletions: 2 };
    assert_eq!(total, DiffStats { insertions: 10, deletions: 2 });
}

#[test]
fn line_kind_is_told_from_the_gain() {
    assert_eq!(LineKind::of_gain(1, 0, 0), Some(LineKind::Code));
    assert_eq!(LineKind::of_gain(0, 1, 0), Some(LineKind::Comment));
    assert_eq!(LineKind::of_gain(0, 0, 1), Some(LineKind::Blank));
    assert_eq!(LineKind::of_gain(0, 0, 0), None);
    assert_eq!(LineKind::of_gain(1, 1, 0), None);
    assert_eq!(LineKind::of_gain(2, 0, 0), None);
}
