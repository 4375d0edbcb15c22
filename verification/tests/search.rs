use tome::search::{fuzzy_word, merge_hits};

#[test]
fn one_word_query_short_of_hits_is_retried() {
    assert_eq!(fuzzy_word("  phopton ", 0, 10), Some("phopton".to_string()));
    assert_eq!(fuzzy_word("photo", 3, 10), Some("photo".to_string()));
}

#[test]
fn query_with_enough_hits_is_not_retried() {
    assert_eq!(fuzzy_word("phopton", 10, 10), None);
    assert_eq!(fuzzy_word("phopton", 0, 0), None);
}

#[test]
fn multi_word_and_short_queries_are_not_retried() {
    assert_eq!(fuzzy_word("phopton zzzz", 0, 10), None);
    assert_eq!(fuzzy_word("pho", 0, 10), None);
    assert_eq!(fuzzy_word("   ", 0, 10), None);
    assert_eq!(fuzzy_word("a\tbcd", 0, 10), None);
}

#[test]
fn merge_puts_exact_first_and_skips_seen_pages() {
    let merged = merge_hits(&[1], &[2, 1, 3, 2], 10);
    assert_eq!(merged, vec![(false, 0), (true, 0), (true, 2)]);
}

#[test]
fn merge_stops_at_the_limit() {
    assert_eq!(merge_hits(&[5, 6, 7], &[8], 2), vec![(false, 0), (false, 1)]);
    assert_eq!(merge_hits(&[5], &[8, 9, 10], 3), vec![(false, 0), (true, 0), (true, 1)]);
    assert_eq!(merge_hits(&[5], &[8], 0), Vec::<(bool, usize)>::new());
}
