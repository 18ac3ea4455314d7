//! One competitor's record, and the parser that reads it from a table row.

use crate::text::{
    chars_of, contains_digit, decimal_u16, find_char, index_of, parse_u16_range,
    range_contains_digit, trim_range, trimmed,
};
use vstd::prelude::*;

verus! {

/// What a `PlayerH2H` stands for: a name, and one `(wins, losses)` pair per
/// opponent column, in column order.
pub struct PlayerRecord {
    pub name: Seq<char>,
    pub results: Seq<(u16, u16)>,
}

/// One competitor's head-to-head results. The `k`-th pair belongs to the
/// `k`-th opponent column. A record always holds at least one pair.
#[derive(Debug, PartialEq, Eq)]
pub struct PlayerH2H {
    player_name: String,
    ordered_head_to_heads: Vec<(u16, u16)>,
}

impl View for PlayerH2H {
    type V = PlayerRecord;

    closed spec fn view(&self) -> PlayerRecord {
        PlayerRecord { name: self.player_name@, results: self.ordered_head_to_heads@ }
    }
}

/// A copy of `results`.
pub fn copy_results(results: &Vec<(u16, u16)>) -> (copy: Vec<(u16, u16)>)
    ensures
        copy@ == results@,
{
    let mut copy: Vec<(u16, u16)> = Vec::new();
    let mut i: usize = 0;
    while i < results.len()
        invariant
            i <= results.len(),
            copy@ == results@.take(i as int),
        decreases results.len() - i,
    {
        copy.push(results[i]);
        assert(results@.take(i + 1) == results@.take(i as int).push(results@[i as int]));
        i += 1;
    }
    assert(results@.take(results.len() as int) == results@);
    copy
}

impl Clone for PlayerH2H {
    fn clone(&self) -> (r: PlayerH2H)
        ensures
            r@ == self@,
    {
        proof {
            use_type_invariant(self);
        }
        let ordered_head_to_heads = copy_results(&self.ordered_head_to_heads);
        PlayerH2H { player_name: self.player_name.clone(), ordered_head_to_heads }
    }
}

impl PlayerH2H {
    #[verifier::type_invariant]
    spec fn holds_a_result(&self) -> bool {
        self.ordered_head_to_heads@.len() > 0
    }

    /// A record of `results` under `player_name`; `None` where `results` is empty.
    pub fn new(player_name: String, ordered_head_to_heads: Vec<(u16, u16)>) -> (r: Option<
        PlayerH2H,
    >)
        ensures
            ordered_head_to_heads@.len() == 0 ==> r is None,
            ordered_head_to_heads@.len() > 0 ==> r is Some && r->0@ == (PlayerRecord {
                name: player_name@,
                results: ordered_head_to_heads@,
            }),
    {
        if ordered_head_to_heads.len() == 0 {
            None
        } else {
            Some(PlayerH2H { player_name, ordered_head_to_heads })
        }
    }

    pub fn player_name(&self) -> (name: &String)
        ensures
            name@ == self@.name,
    {
        &self.player_name
    }

    pub fn ordered_head_to_heads(&self) -> (results: &Vec<(u16, u16)>)
        ensures
            results@ == self@.results,
            results@.len() > 0,
    {
        proof {
            use_type_invariant(self);
        }
        &self.ordered_head_to_heads
    }
}

/// The `(wins, losses)` pair that a result cell writes: the text up to the
/// first hyphen and the text after it, each trimmed, each a 16-bit decimal.
pub open spec fn record_of(text: Seq<char>) -> Option<(u16, u16)> {
    let k = index_of(text, '-') as int;
    if k >= text.len() {
        None
    } else {
        match (decimal_u16(trimmed(text.take(k))), decimal_u16(trimmed(text.skip(k + 1)))) {
            (Some(wins), Some(losses)) => Some((wins, losses)),
            _ => None,
        }
    }
}

/// Reads a result cell as `record_of` describes.
pub fn parse_record(text: &str) -> (r: Option<(u16, u16)>)
    ensures
        r == record_of(text@),
{
    let chars = chars_of(text);
    let len = chars.len();
    let k = find_char(&chars, 0, len, '-');
    assert(chars@.subrange(0, len as int) == text@);
    if k >= len {
        return None;
    }
    assert(chars@.subrange(0, k as int) == text@.take(k as int));
    assert(chars@.subrange(k + 1, len as int) == text@.skip(k + 1));
    let (a, b) = trim_range(&chars, 0, k);
    let (c, d) = trim_range(&chars, k + 1, len);
    match (parse_u16_range(&chars, a, b), parse_u16_range(&chars, c, d)) {
        (Some(wins), Some(losses)) => Some((wins, losses)),
        _ => None,
    }
}

/// Whether `text` holds a decimal digit, which makes a cell a result cell.
pub fn is_result_cell(text: &str) -> (b: bool)
    ensures
        b == contains_digit(text@),
{
    let chars = chars_of(text);
    let len = chars.len();
    assert(chars@.subrange(0, len as int) == text@);
    range_contains_digit(&chars, 0, len)
}

/// `text` without leading and trailing whitespace, as an owned string.
pub fn trimmed_string(text: &str) -> (r: String)
    ensures
        r@ == trimmed(text@),
{
    let chars = chars_of(text);
    let len = chars.len();
    assert(chars@.subrange(0, len as int) == text@);
    let (a, b) = trim_range(&chars, 0, len);
    assert(chars@.subrange(a as int, b as int) == text@.subrange(a as int, b as int));
    text.substring_char(a, b).to_owned()
}

/// What an `HtmlRow` stands for: the texts of a row's header cells and of its
/// data cells, each in document order.
pub struct RowTexts {
    pub headers: Seq<Seq<char>>,
    pub cells: Seq<Seq<char>>,
}

/// One table row, as the texts of its header cells and of its data cells.
#[derive(Debug, PartialEq, Eq)]
pub struct HtmlRow {
    pub header_texts: Vec<String>,
    pub cell_texts: Vec<String>,
}

/// The character sequences that `strings` hold.
pub open spec fn texts(strings: Seq<String>) -> Seq<Seq<char>> {
    strings.map_values(|s: String| s@)
}

impl View for HtmlRow {
    type V = RowTexts;

    open spec fn view(&self) -> RowTexts {
        RowTexts { headers: texts(self.header_texts@), cells: texts(self.cell_texts@) }
    }
}

/// A result cell whose text is not a `wins - losses` pair.
#[derive(Clone, Copy, Debug, PartialEq, Eq)]
pub struct RowParseError {
    /// The position of the cell among the row's data cells.
    pub cell_index: usize,
}

/// The pairs that the result cells among `cells` write, in cell order; or the
/// position of the first result cell that writes none. A cell without a digit
/// is no result cell and is passed over.
pub open spec fn cell_results(cells: Seq<Seq<char>>) -> Result<Seq<(u16, u16)>, int>
    decreases cells.len(),
{
    if cells.len() == 0 {
        Ok(Seq::empty())
    } else {
        match cell_results(cells.drop_last()) {
            Err(i) => Err(i),
            Ok(results) => if !contains_digit(cells.last()) {
                Ok(results)
            } else {
                match record_of(cells.last()) {
                    Some(pair) => Ok(results.push(pair)),
                    None => Err(cells.len() - 1),
                }
            },
        }
    }
}

/// What a row yields: nothing where it has no header cell or no result cell;
/// else the record named by the trimmed text of its last header cell; or the
/// position of the first result cell that cannot be read.
pub open spec fn row_record(row: RowTexts) -> Result<Option<PlayerRecord>, int> {
    if row.headers.len() == 0 {
        Ok(None)
    } else {
        match cell_results(row.cells) {
            Err(i) => Err(i),
            Ok(results) => if results.len() == 0 {
                Ok(None)
            } else {
                Ok(Some(PlayerRecord { name: trimmed(row.headers.last()), results }))
            },
        }
    }
}

/// Whether `outcome` is what `expected` describes.
pub open spec fn row_outcome_is(
    outcome: Result<Option<PlayerH2H>, RowParseError>,
    expected: Result<Option<PlayerRecord>, int>,
) -> bool {
    match expected {
        Ok(None) => outcome == Ok::<Option<PlayerH2H>, RowParseError>(None),
        Ok(Some(record)) => outcome matches Ok(Some(player)) && player@ == record,
        Err(i) => outcome matches Err(e) && e.cell_index == i,
    }
}

/// The number of result cells among `cells`.
pub open spec fn result_cell_count(cells: Seq<Seq<char>>) -> nat
    decreases cells.len(),
{
    if cells.len() == 0 {
        0
    } else {
        result_cell_count(cells.drop_last()) + if contains_digit(cells.last()) {
            1nat
        } else {
            0nat
        }
    }
}

/// Whether every result cell among `cells` writes a pair.
pub open spec fn cells_well_formed(cells: Seq<Seq<char>>) -> bool {
    forall|i: int| 0 <= i < cells.len() && contains_digit(#[trigger] cells[i]) ==> record_of(
        cells[i],
    ) is Some
}

impl PlayerH2H {
    /// Reads one row: the name from the last header cell, one pair from each
    /// result cell.
    pub fn from_row_texts(row: &HtmlRow) -> (r: Result<Option<PlayerH2H>, RowParseError>)
        ensures
            row_outcome_is(r, row_record(row@)),
    {
        let headers = row.header_texts.len();
        if headers == 0 {
            return Ok(None);
        }
        let ghost cells = texts(row.cell_texts@);
        let mut results: Vec<(u16, u16)> = Vec::new();
        let mut i: usize = 0;
        while i < row.cell_texts.len()
            invariant
                i <= row.cell_texts.len(),
                row.header_texts@.len() > 0,
                cells == texts(row.cell_texts@),
                cell_results(cells.take(i as int)) == Ok::<Seq<(u16, u16)>, int>(results@),
            decreases row.cell_texts.len() - i,
        {
            let cell = row.cell_texts[i].as_str();
            proof {
                assert(cells.take(i + 1).drop_last() == cells.take(i as int));
                assert(cells.take(i + 1).last() == cell@);
            }
            if is_result_cell(cell) {
                match parse_record(cell) {
                    Some(pair) => {
                        results.push(pair);
                    },
                    None => {
                        proof {
                            lemma_cell_results_error_stays(cells, i + 1);
                        }
                        return Err(RowParseError { cell_index: i });
                    },
                }
            }
            i += 1;
        }
        assert(cells.take(row.cell_texts.len() as int) == cells);
        let name = trimmed_string(row.header_texts[headers - 1].as_str());
        assert(texts(row.header_texts@).last() == row.header_texts@[headers - 1]@);
        Ok(PlayerH2H::new(name, results))
    }
}

/// What `players` stand for.
pub open spec fn records(players: Seq<PlayerH2H>) -> Seq<PlayerRecord> {
    players.map_values(|p: PlayerH2H| p@)
}

/// What `rows` stand for.
pub open spec fn row_texts(rows: Seq<HtmlRow>) -> Seq<RowTexts> {
    rows.map_values(|r: HtmlRow| r@)
}

/// The records that the rows of a table yield, in row order. A row that
/// yields nothing, or that cannot be read, is passed over.
pub open spec fn table_records(rows: Seq<RowTexts>) -> Seq<PlayerRecord>
    decreases rows.len(),
{
    if rows.len() == 0 {
        Seq::empty()
    } else {
        match row_record(rows.last()) {
            Ok(Some(record)) => table_records(rows.drop_last()).push(record),
            _ => table_records(rows.drop_last()),
        }
    }
}

/// Reads every row of a table, and keeps the records that the rows yield.
/// One row that cannot be read does not stop the others from being read.
pub fn players_from_rows(rows: &Vec<HtmlRow>) -> (players: Vec<PlayerH2H>)
    ensures
        records(players@) == table_records(row_texts(rows@)),
{
    let ghost all = row_texts(rows@);
    let mut players: Vec<PlayerH2H> = Vec::new();
    let mut i: usize = 0;
    while i < rows.len()
        invariant
            i <= rows.len(),
            all == row_texts(rows@),
            records(players@) == table_records(all.take(i as int)),
        decreases rows.len() - i,
    {
        proof {
            assert(all.take(i + 1).drop_last() == all.take(i as int));
            assert(all.take(i + 1).last() == rows@[i as int]@);
        }
        let ghost before = players@;
        match PlayerH2H::from_row_texts(&rows[i]) {
            Ok(Some(player)) => {
                players.push(player);
                assert(records(players@) == records(before).push(player@));
            },
            _ => {},
        }
        i += 1;
    }
    assert(all.take(rows.len() as int) == all);
    players
}

/// Once a prefix of the cells fails at some cell, the whole row fails there.
pub proof fn lemma_cell_results_error_stays(cells: Seq<Seq<char>>, k: int)
    requires
        0 <= k <= cells.len(),
        cell_results(cells.take(k)) is Err,
    ensures
        cell_results(cells) == cell_results(cells.take(k)),
    decreases cells.len() - k,
{
    if k == cells.len() {
        assert(cells.take(k) == cells);
    } else {
        assert(cells.take(k + 1).drop_last() == cells.take(k));
        lemma_cell_results_error_stays(cells, k + 1);
    }
}

/// Where every result cell can be read, the row yields as many pairs as it
/// has result cells.
pub proof fn lemma_cell_results_count(cells: Seq<Seq<char>>)
    requires
        cells_well_formed(cells),
    ensures
        cell_results(cells) matches Ok(results) && results.len() == result_cell_count(cells),
    decreases cells.len(),
{
    if cells.len() > 0 {
        let front = cells.drop_last();
        assert forall|i: int| 0 <= i < front.len() && contains_digit(
            #[trigger] front[i],
        ) implies record_of(front[i]) is Some by {
            assert(front[i] == cells[i]);
        }
        lemma_cell_results_count(front);
        assert(cells.last() == cells[cells.len() - 1]);
    }
}

/// A row with a header cell and at least one result cell, all of whose result
/// cells can be read, yields a record: it holds as many pairs as the row has
/// result cells, under the trimmed text of the last header cell.
pub proof fn lemma_well_formed_row_yields_record(row: RowTexts)
    requires
        row.headers.len() >= 1,
        cells_well_formed(row.cells),
        result_cell_count(row.cells) >= 1,
    ensures
        row_record(row) matches Ok(Some(record)) && record.results.len() == result_cell_count(
            row.cells,
        ) && record.name == trimmed(row.headers.last()),
{
    lemma_cell_results_count(row.cells);
}

/// Without a result cell there are no pairs.
pub proof fn lemma_no_result_cells_no_results(cells: Seq<Seq<char>>)
    requires
        result_cell_count(cells) == 0,
    ensures
        cell_results(cells) == Ok::<Seq<(u16, u16)>, int>(Seq::empty()),
    decreases cells.len(),
{
    if cells.len() > 0 {
        lemma_no_result_cells_no_results(cells.drop_last());
    }
}

/// A row without a result cell yields nothing: it is dropped, and no empty
/// record stands in for it.
pub proof fn lemma_row_without_results_is_dropped(row: RowTexts)
    requires
        result_cell_count(row.cells) == 0,
    ensures
        row_record(row) == Ok::<Option<PlayerRecord>, int>(None),
{
    lemma_no_result_cells_no_results(row.cells);
}

} // verus!
