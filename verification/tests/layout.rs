use git_detective::layout::{
    author_width, first_chars, item_width, shorten, table_width, unique_short_ids,
    wide_item_width,
};

#[test]
fn table_is_as_wide_as_the_terminal_up_to_a_limit() {
    assert_eq!(table_width(None, 60), 60);
    assert_eq!(table_width(Some((40, 20)), 60), 40);
    assert_eq!(table_width(Some((60, 20)), 60), 60);
    assert_eq!(table_width(Some((200, 20)), 60), 60);
    assert_eq!(table_width(Some((0, 0)), 60), 0);
}

#[test]
fn columns_share_the_width() {
    assert_eq!(item_width(72, 6), 12);
    assert_eq!(item_width(96, 3), 32);
    assert_eq!(item_width(4, 5), 0);
    assert_eq!(author_width(60), 24);
    assert_eq!(author_width(4), 0);
}

#[test]
fn wide_columns_need_a_wide_table() {
    // 96 / 5 = 19, widened by (19 - 4) / 5 - 1 = 2
    assert_eq!(wide_item_width(96, 5), Some(21));
    // 45 / 5 = 9, widened by (9 - 4) / 5 - 1 = 0
    assert_eq!(wide_item_width(45, 5), Some(9));
    assert_eq!(wide_item_width(44, 5), None);
    assert_eq!(wide_item_width(19, 5), None);
    assert_eq!(wide_item_width(0, 5), None);
    assert_eq!(wide_item_width(usize::MAX, 1), None);
}

#[test]
fn first_chars_counts_characters() {
    assert_eq!(first_chars("29c86b2fd5876061", 6), "29c86b");
    assert_eq!(first_chars("abc", 6), "abc");
    assert_eq!(first_chars("abc", 0), "");
    assert_eq!(first_chars("Zoë Müller", 3), "Zoë");
}

#[test]
fn a_long_text_is_cut_and_ends_in_dots() {
    assert_eq!(shorten("Nick Hackman", 24), Some("Nick Hackman".to_string()));
    assert_eq!(shorten("Nick Hackman", 12), Some("Nick Hackman".to_string()));
    assert_eq!(shorten("Nick Hackman", 11), Some("Nick Hac...".to_string()));
    assert_eq!(shorten("Nick Hackman", 3), Some("...".to_string()));
    assert_eq!(shorten("Nick Hackman", 2), None);
    assert_eq!(shorten("", 0), Some(String::new()));
    // the length is taken in bytes, the cut in characters
    assert_eq!(shorten("äöü", 5), Some("äö...".to_string()));
}

#[test]
fn short_ids_are_unique_or_not() {
    let ids = vec!["29c86b2f".to_string(), "29c86b30".to_string(), "bc7268a4".to_string()];
    assert!(!unique_short_ids(&ids, 6));
    assert!(unique_short_ids(&ids, 7));
    assert!(unique_short_ids(&ids, 10));
    assert!(unique_short_ids(&Vec::new(), 6));
    assert!(unique_short_ids(&vec!["a".to_string()], 0));
    assert!(!unique_short_ids(&vec!["a".to_string(), "b".to_string()], 0));
    assert!(!unique_short_ids(&vec!["same".to_string(), "same".to_string()], 10));
}
