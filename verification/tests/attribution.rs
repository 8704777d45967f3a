use git_detective::attribution::attribute;
use git_detective::{Blame, BlameHunk, LineKind, Stats};
use std::collections::HashMap;

fn annotate(kinds: &[(usize, LineKind)]) -> HashMap<usize, LineKind> {
    kinds.iter().copied().collect()
}

fn all(first: usize, last: usize, kind: LineKind) -> Vec<(usize, LineKind)> {
    (first..=last).map(|line| (line, kind)).collect()
}

#[test]
fn hunk_range_starts_at_its_first_line() {
    let hunk = BlameHunk::new(3, 4, b"A".to_vec());
    assert_eq!(hunk.final_range(), 3..7);
    assert_eq!(hunk.author_name(), Some(&"A".to_string()));
    let empty = BlameHunk::new(9, 0, b"A".to_vec());
    assert_eq!(empty.final_range(), 9..9);
}

#[test]
fn hunk_author_is_decoded_from_bytes() {
    let hunk = BlameHunk::new(1, 1, "Zoë".as_bytes().to_vec());
    assert_eq!(hunk.author.as_ref().ok(), Some(&"Zoë".to_string()));
    let broken = BlameHunk::new(1, 1, vec![0x66, 0x6f, 0xff]);
    assert!(broken.author.is_err());
    assert_eq!(broken.author_name(), None);
}

#[test]
fn blame_keeps_its_hunks_in_order() {
    let blame = Blame::new(vec![BlameHunk::new(1, 2, b"A".to_vec()), BlameHunk::new(3, 5, b"B".to_vec())]).unwrap();
    assert_eq!(blame.len(), 2);
    assert_eq!(blame.hunk(1).final_range(), 3..8);
    let ranges: Vec<_> = blame.iter().map(|hunk| hunk.final_range()).collect();
    assert_eq!(ranges, vec![1..3, 3..8]);
}

#[test]
fn ten_lines_of_one_author_by_kind() {
    let blame = Blame::new(vec![BlameHunk::new(1, 10, b"A".to_vec())]).unwrap();
    let mut kinds = all(1, 3, LineKind::Code);
    kinds.push((4, LineKind::Comment));
    kinds.push((5, LineKind::Blank));
    kinds.extend(all(6, 10, LineKind::Code));
    let credits = attribute(&blame, &annotate(&kinds));
    assert_eq!(credits.len(), 1);
    assert_eq!(credits.get("A"), Some(&Stats { lines: 10, code: 8, comments: 1, blanks: 1 }));
}

#[test]
fn hunks_of_one_author_add_up() {
    let blame = Blame::new(vec![
        BlameHunk::new(1, 2, b"A".to_vec()),
        BlameHunk::new(3, 2, b"B".to_vec()),
        BlameHunk::new(5, 3, b"A".to_vec()),
    ]).unwrap();
    let mut kinds = all(1, 4, LineKind::Code);
    kinds.extend(all(5, 6, LineKind::Comment));
    kinds.push((7, LineKind::Blank));
    let credits = attribute(&blame, &annotate(&kinds));
    assert_eq!(credits.len(), 2);
    assert_eq!(credits.get("A"), Some(&Stats { lines: 5, code: 2, comments: 2, blanks: 1 }));
    assert_eq!(credits.get("B"), Some(&Stats { lines: 2, code: 2, comments: 0, blanks: 0 }));
}

#[test]
fn hunk_with_undecodable_author_is_dropped() {
    let blame = Blame::new(vec![
        BlameHunk::new(1, 2, vec![0xff, 0xfe]),
        BlameHunk::new(3, 2, b"B".to_vec()),
    ]).unwrap();
    let credits = attribute(&blame, &annotate(&all(1, 4, LineKind::Code)));
    assert_eq!(credits.len(), 1);
    assert_eq!(credits.get("B"), Some(&Stats { lines: 2, code: 2, comments: 0, blanks: 0 }));
}

#[test]
fn line_without_annotation_is_skipped() {
    // the blame reaches to line 6, the annotation only to line 4
    let blame = Blame::new(vec![BlameHunk::new(1, 6, b"A".to_vec())]).unwrap();
    let credits = attribute(&blame, &annotate(&all(1, 4, LineKind::Code)));
    assert_eq!(credits.get("A"), Some(&Stats { lines: 4, code: 4, comments: 0, blanks: 0 }));
}

#[test]
fn author_without_any_credited_line_is_absent() {
    let blame = Blame::new(vec![
        BlameHunk::new(1, 2, b"A".to_vec()),
        BlameHunk::new(10, 2, b"B".to_vec()),
        BlameHunk::new(20, 0, b"C".to_vec()),
    ]).unwrap();
    let credits = attribute(&blame, &annotate(&all(1, 2, LineKind::Blank)));
    assert_eq!(credits.len(), 1);
    assert!(credits.contains_key("A"));
    assert!(!credits.contains_key("B"));
    assert!(!credits.contains_key("C"));
}

#[test]
fn empty_blame_credits_nobody() {
    let blame = Blame::new(Vec::new()).unwrap();
    let credits = attribute(&blame, &annotate(&all(1, 5, LineKind::Code)));
    assert!(credits.is_empty());
}

#[test]
fn every_credited_stats_is_balanced() {
    let blame = Blame::new(vec![
        BlameHunk::new(1, 4, b"A".to_vec()),
        BlameHunk::new(5, 4, b"B".to_vec()),
        BlameHunk::new(9, 4, b"A".to_vec()),
    ]).unwrap();
    let mut kinds = Vec::new();
    for line in 1..=12 {
        let kind = match line % 3 {
            0 => LineKind::Code,
            1 => LineKind::Comment,
            _ => LineKind::Blank,
        };
        kinds.push((line, kind));
    }
    let credits = attribute(&blame, &annotate(&kinds));
    let mut lines = 0;
    for (_, stats) in credits.iter() {
        assert_eq!(stats.lines, stats.code + stats.comments + stats.blanks);
        lines += stats.lines;
    }
    assert_eq!(lines, 12);
}

#[test]
fn blame_counts_the_lines_of_its_hunks() {
    let blame = Blame::new(vec![BlameHunk::new(1, 2, b"A".to_vec()), BlameHunk::new(2, 5, b"B".to_vec())])
        .unwrap();
    assert_eq!(blame.lines(), 7);
    assert_eq!(Blame::new(Vec::new()).unwrap().lines(), 0);
}

#[test]
fn blame_of_more_lines_than_can_be_counted_is_none() {
    // a hunk that ends beyond the last line number
    assert!(Blame::new(vec![BlameHunk::new(usize::MAX, 1, b"A".to_vec())]).is_none());
    // two hunks that together cover more lines than can be counted
    assert!(Blame::new(vec![
        BlameHunk::new(0, usize::MAX, b"A".to_vec()),
        BlameHunk::new(0, 1, b"A".to_vec()),
    ])
    .is_none());
    // at the limit
    assert!(Blame::new(vec![BlameHunk::new(0, usize::MAX, b"A".to_vec())]).is_some());
}
