use braacket_h2h::record::{
    copy_results, is_result_cell, parse_record, players_from_rows, trimmed_string, HtmlRow,
    PlayerH2H, RowParseError,
};

fn row(headers: &[&str], cells: &[&str]) -> HtmlRow {
    HtmlRow {
        header_texts: headers.iter().map(|s| s.to_string()).collect(),
        cell_texts: cells.iter().map(|s| s.to_string()).collect(),
    }
}

#[test]
fn record_is_wins_hyphen_losses() {
    assert_eq!(parse_record("3 - 1"), Some((3, 1)));
    assert_eq!(parse_record("3-1"), Some((3, 1)));
    assert_eq!(parse_record("0 - 0"), Some((0, 0)));
    assert_eq!(parse_record("  12\n - \n 7  "), Some((12, 7)));
    assert_eq!(parse_record("\u{a0}2\u{2003}-\u{3000}5\t"), Some((2, 5)));
    assert_eq!(parse_record("+4 - +9"), Some((4, 9)));
    assert_eq!(parse_record("007 - 010"), Some((7, 10)));
    assert_eq!(parse_record("65535 - 65535"), Some((65535, 65535)));
}

#[test]
fn record_reads_every_digit_of_each_side() {
    assert_eq!(parse_record("12 - 3"), Some((12, 3)));
    assert_eq!(parse_record("1 - 23"), Some((1, 23)));
    assert_eq!(parse_record("120 - 305"), Some((120, 305)));
}

#[test]
fn record_needs_two_numbers_around_a_hyphen() {
    assert_eq!(parse_record(""), None);
    assert_eq!(parse_record("31"), None);
    assert_eq!(parse_record("3 1"), None);
    assert_eq!(parse_record("3 -"), None);
    assert_eq!(parse_record("- 1"), None);
    assert_eq!(parse_record("-"), None);
    assert_eq!(parse_record("3 - 1 - 2"), None);
    assert_eq!(parse_record("3 - -1"), None);
    assert_eq!(parse_record("3 \u{2013} 1"), None);
    assert_eq!(parse_record("a - 1"), None);
    assert_eq!(parse_record("3 - 1a"), None);
    assert_eq!(parse_record("1 2 - 3"), None);
    assert_eq!(parse_record("+ - 1"), None);
    assert_eq!(parse_record("++1 - 1"), None);
    assert_eq!(parse_record("65536 - 1"), None);
    assert_eq!(parse_record("1 - 65536"), None);
    assert_eq!(parse_record("99999999999999999999 - 1"), None);
    assert_eq!(parse_record("\u{0663} - 1"), None);
}

#[test]
fn result_cell_is_one_with_a_digit() {
    assert!(is_result_cell("3 - 1"));
    assert!(is_result_cell("x7"));
    assert!(is_result_cell("0"));
    assert!(!is_result_cell(""));
    assert!(!is_result_cell("-"));
    assert!(!is_result_cell("   "));
    assert!(!is_result_cell("n/a"));
    assert!(!is_result_cell("\u{0663}"));
}

#[test]
fn trimming_removes_whitespace_at_both_ends_only() {
    assert_eq!(trimmed_string("  Alice  "), "Alice");
    assert_eq!(trimmed_string("\n\t Mr  Game & Watch \r\n"), "Mr  Game & Watch");
    assert_eq!(trimmed_string("\u{a0}\u{1680}\u{2000}\u{200a}\u{2028}\u{2029}\u{202f}\u{205f}\u{3000}x\u{85}\u{b}\u{c}"), "x");
    assert_eq!(trimmed_string(""), "");
    assert_eq!(trimmed_string(" \n "), "");
    assert_eq!(trimmed_string("\u{200b}x\u{200b}"), "\u{200b}x\u{200b}");
    assert_eq!(trimmed_string("é ü"), "é ü");
    let texts = ["  a b ", "\u{feff}z", "\u{180e} q", "", "  ", "x\u{1f}", "\u{1c}y\u{1d}z\u{1e}"];
    for text in texts {
        assert_eq!(trimmed_string(text), text.trim());
    }
}

#[test]
fn well_formed_row_yields_one_pair_per_result_cell() {
    let r = row(&["  Alice "], &["-", "3 - 1", "", "0 - 2", "n/a", "5 - 0"]);
    let player = PlayerH2H::from_row_texts(&r).unwrap().unwrap();
    assert_eq!(player.player_name(), "Alice");
    assert_eq!(player.ordered_head_to_heads(), &vec![(3, 1), (0, 2), (5, 0)]);
    assert_eq!(player.ordered_head_to_heads().len(), 3);
}

#[test]
fn name_is_the_last_header_cell() {
    let r = row(&["1", " 17 ", "\n Bob\n"], &["2 - 2"]);
    let player = PlayerH2H::from_row_texts(&r).unwrap().unwrap();
    assert_eq!(player.player_name(), "Bob");
    assert_eq!(player.ordered_head_to_heads(), &vec![(2, 2)]);
}

#[test]
fn row_without_result_cells_is_dropped() {
    assert_eq!(PlayerH2H::from_row_texts(&row(&["Alice"], &[])), Ok(None));
    assert_eq!(PlayerH2H::from_row_texts(&row(&["Alice"], &["-", "", "n/a"])), Ok(None));
    assert_eq!(PlayerH2H::from_row_texts(&row(&["#", "Player"], &["vs", "vs"])), Ok(None));
    assert_eq!(PlayerH2H::from_row_texts(&row(&[], &[])), Ok(None));
}

#[test]
fn row_without_header_is_dropped() {
    assert_eq!(PlayerH2H::from_row_texts(&row(&[], &["3 - 1"])), Ok(None));
    assert_eq!(PlayerH2H::from_row_texts(&row(&[], &["31"])), Ok(None));
}

#[test]
fn unreadable_result_cell_fails_the_row() {
    assert_eq!(
        PlayerH2H::from_row_texts(&row(&["Alice"], &["3 - 1", "-", "31", "x - 2"])),
        Err(RowParseError { cell_index: 2 })
    );
    assert_eq!(
        PlayerH2H::from_row_texts(&row(&["Alice"], &["70000 - 1"])),
        Err(RowParseError { cell_index: 0 })
    );
}

#[test]
fn one_bad_row_does_not_stop_the_table() {
    let rows = vec![
        row(&["#", "Player"], &["A", "B"]),
        row(&["1", "Alice"], &["-", "3 - 1"]),
        row(&["2", "Bob"], &["1 - 3", "oops 1"]),
        row(&["3", "Carol"], &["", ""]),
        row(&["4", "Dave"], &["0 - 1", "1 - 0"]),
    ];
    let players = players_from_rows(&rows);
    assert_eq!(players.len(), 2);
    assert_eq!(players[0].player_name(), "Alice");
    assert_eq!(players[0].ordered_head_to_heads(), &vec![(3, 1)]);
    assert_eq!(players[1].player_name(), "Dave");
    assert_eq!(players[1].ordered_head_to_heads(), &vec![(0, 1), (1, 0)]);
    assert!(players_from_rows(&Vec::new()).is_empty());
}

#[test]
fn record_always_holds_a_pair() {
    assert_eq!(PlayerH2H::new("Alice".to_string(), vec![]), None);
    let player = PlayerH2H::new("Alice".to_string(), vec![(1, 2)]).unwrap();
    assert_eq!(player.player_name(), "Alice");
    assert_eq!(player.ordered_head_to_heads(), &vec![(1, 2)]);
}

#[test]
fn clone_keeps_name_and_pairs() {
    let player = PlayerH2H::new("Alice".to_string(), vec![(1, 2), (3, 4)]).unwrap();
    let copy = player.clone();
    assert_eq!(copy, player);
    assert_eq!(copy.player_name(), "Alice");
    assert_eq!(copy.ordered_head_to_heads(), &vec![(1, 2), (3, 4)]);
    assert_eq!(copy_results(&vec![(9, 8), (7, 6)]), vec![(9, 8), (7, 6)]);
}
