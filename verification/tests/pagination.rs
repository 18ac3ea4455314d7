use braacket_h2h::error::PageError;
use braacket_h2h::pagination::{pages_for_count, pages_from_label, parse_label_count, ROW_COL_MAX_VAL};

#[test]
fn label_of_134_rows_takes_three_pages() {
    assert_eq!(pages_from_label("1 to 50 of 134 rows", 50), Ok(3));
}

#[test]
fn label_of_100_rows_takes_two_pages() {
    assert_eq!(pages_from_label("1 to 50 of 100 rows", 50), Ok(2));
}

#[test]
fn page_width_is_fifty() {
    assert_eq!(ROW_COL_MAX_VAL, 50);
}

#[test]
fn pages_round_up() {
    assert_eq!(pages_for_count(0, 50), 0);
    assert_eq!(pages_for_count(1, 50), 1);
    assert_eq!(pages_for_count(50, 50), 1);
    assert_eq!(pages_for_count(51, 50), 2);
    assert_eq!(pages_for_count(65535, 50), 1311);
    assert_eq!(pages_for_count(65535, 1), 65535);
    assert_eq!(pages_for_count(65535, 65535), 1);
    assert_eq!(pages_for_count(7, 65535), 1);
}

#[test]
fn label_count_is_the_word_after_the_last_of() {
    assert_eq!(parse_label_count("1 to 50 of 134 rows"), Some(134));
    assert_eq!(parse_label_count("1 to 50 of 134"), Some(134));
    assert_eq!(parse_label_count("\n  1 to 50 of\n   134\n  cols\n"), Some(134));
    assert_eq!(parse_label_count("of 2"), Some(2));
    assert_eq!(parse_label_count("3 of 4 of 5 rows"), Some(5));
    assert_eq!(parse_label_count("1 to 50 of +7 rows"), Some(7));
    assert_eq!(parse_label_count("of65535"), Some(65535));
}

#[test]
fn label_without_a_count_is_rejected() {
    assert_eq!(parse_label_count(""), None);
    assert_eq!(parse_label_count("134"), None);
    assert_eq!(parse_label_count("1 to 50"), None);
    assert_eq!(parse_label_count("1 to 50 of"), None);
    assert_eq!(parse_label_count("1 to 50 of rows"), None);
    assert_eq!(parse_label_count("1 to 50 of 134rows"), None);
    assert_eq!(parse_label_count("1 to 50 of -3 rows"), None);
    assert_eq!(parse_label_count("1 to 50 of 65536 rows"), None);
    assert_eq!(parse_label_count("1 to 50 of 12 of"), None);
    assert_eq!(pages_from_label("1 to 50 rows", 50), Err(PageError::LabelParse));
}
