//! The matrix assembler: merges the fragments of the fetched pages into one
//! record per player, spanning every opponent column.
//!
//! A page is tagged with its place in the grid of row-pages and column-pages,
//! both counted from 1. Fragments are matched by place: the `i`-th row of
//! every column-page of one row-page belongs to the same player, whose name
//! is taken from the first column-page. The order in which pages arrive has
//! no part in the result.

use crate::record::{records, PlayerH2H, PlayerRecord};
use vstd::prelude::*;

verus! {

/// What a `PageResult` stands for.
pub struct PageRecords {
    pub row_page: int,
    pub col_page: int,
    pub players: Seq<PlayerRecord>,
}

/// The fragments read from one fetched page, tagged with the page's place in
/// the grid. Each fragment covers the opponent columns of that page only.
#[derive(Debug, PartialEq, Eq)]
pub struct PageResult {
    pub row_page: u16,
    pub col_page: u16,
    pub players: Vec<PlayerH2H>,
}

impl View for PageResult {
    type V = PageRecords;

    open spec fn view(&self) -> PageRecords {
        PageRecords {
            row_page: self.row_page as int,
            col_page: self.col_page as int,
            players: records(self.players@),
        }
    }
}

/// What `pages` stand for.
pub open spec fn page_views(pages: Seq<PageResult>) -> Seq<PageRecords> {
    pages.map_values(|p: PageResult| p@)
}

/// What a `MatrixAssemblyError` stands for.
pub struct AssemblyMismatch {
    pub name: Seq<char>,
    pub expected: nat,
    pub actual: nat,
}

/// A player whose merged record does not span the opponent count: a page was
/// dropped or misaligned.
#[derive(Debug, PartialEq, Eq)]
pub struct MatrixAssemblyError {
    pub player_name: String,
    /// The opponent count that the label reports.
    pub expected: u16,
    /// The number of pairs in the merged record.
    pub actual: usize,
}

impl View for MatrixAssemblyError {
    type V = AssemblyMismatch;

    open spec fn view(&self) -> AssemblyMismatch {
        AssemblyMismatch {
            name: self.player_name@,
            expected: self.expected as nat,
            actual: self.actual as nat,
        }
    }
}

/// The position in `pages` of the first page tagged `(row_page, col_page)`;
/// the length of `pages` where there is none.
pub open spec fn page_index(pages: Seq<PageRecords>, row_page: int, col_page: int) -> nat
    decreases pages.len(),
{
    if pages.len() == 0 || (pages.first().row_page == row_page && pages.first().col_page
        == col_page) {
        0
    } else {
        1 + page_index(pages.drop_first(), row_page, col_page)
    }
}

/// The fragments of the page tagged `(row_page, col_page)`; none where no
/// such page is among `pages`.
pub open spec fn page_players(pages: Seq<PageRecords>, row_page: int, col_page: int) -> Seq<
    PlayerRecord,
> {
    let k = page_index(pages, row_page, col_page) as int;
    if k < pages.len() {
        pages[k].players
    } else {
        Seq::empty()
    }
}

/// The pairs that the page tagged `(row_page, col_page)` holds for the player
/// in row `row`; none where the page or the row is missing.
pub open spec fn fragment(pages: Seq<PageRecords>, row_page: int, col_page: int, row: int) -> Seq<
    (u16, u16),
> {
    let players = page_players(pages, row_page, col_page);
    if 0 <= row < players.len() {
        players[row].results
    } else {
        Seq::empty()
    }
}

/// The fragments of the player in row `row` of row-page `row_page`, from
/// column-page 1 to column-page `col_pages`, joined in that order.
pub open spec fn merged_results(pages: Seq<PageRecords>, row_page: int, row: int, col_pages: nat) -> Seq<
    (u16, u16),
>
    decreases col_pages,
{
    if col_pages == 0 {
        Seq::empty()
    } else {
        merged_results(pages, row_page, row, (col_pages - 1) as nat) + fragment(
            pages,
            row_page,
            col_pages as int,
            row,
        )
    }
}

/// The merged records of row-page `row_page`: one per row of its first
/// column-page, in row order.
pub open spec fn merged_row_page(pages: Seq<PageRecords>, row_page: int, col_pages: nat) -> Seq<
    PlayerRecord,
> {
    if col_pages == 0 {
        Seq::empty()
    } else {
        Seq::new(
            page_players(pages, row_page, 1).len(),
            |row: int|
                PlayerRecord {
                    name: page_players(pages, row_page, 1)[row].name,
                    results: merged_results(pages, row_page, row, col_pages),
                },
        )
    }
}

/// The merged records of row-pages 1 to `row_pages`, in that order.
pub open spec fn merged_matrix(pages: Seq<PageRecords>, row_pages: nat, col_pages: nat) -> Seq<
    PlayerRecord,
>
    decreases row_pages,
{
    if row_pages == 0 {
        Seq::empty()
    } else {
        merged_matrix(pages, (row_pages - 1) as nat, col_pages) + merged_row_page(
            pages,
            row_pages as int,
            col_pages,
        )
    }
}

/// The position of the first of `players` whose record does not hold
/// `expected` pairs; the length of `players` where every record does.
pub open spec fn first_mismatch(players: Seq<PlayerRecord>, expected: nat) -> nat
    decreases players.len(),
{
    if players.len() == 0 || players.first().results.len() != expected {
        0
    } else {
        1 + first_mismatch(players.drop_first(), expected)
    }
}

/// The matrix that `pages` make up: the merged records, where each of them
/// spans `opponent_count` columns; else the first record that does not.
pub open spec fn assembled(
    pages: Seq<PageRecords>,
    row_pages: nat,
    col_pages: nat,
    opponent_count: nat,
) -> Result<Seq<PlayerRecord>, AssemblyMismatch> {
    let matrix = merged_matrix(pages, row_pages, col_pages);
    let k = first_mismatch(matrix, opponent_count) as int;
    if k < matrix.len() {
        Err(
            AssemblyMismatch {
                name: matrix[k].name,
                expected: opponent_count,
                actual: matrix[k].results.len(),
            },
        )
    } else {
        Ok(matrix)
    }
}

/// Whether `outcome` is what `expected` describes.
pub open spec fn assembly_outcome_is(
    outcome: Result<Vec<PlayerH2H>, MatrixAssemblyError>,
    expected: Result<Seq<PlayerRecord>, AssemblyMismatch>,
) -> bool {
    match expected {
        Ok(matrix) => outcome matches Ok(players) && records(players@) == matrix,
        Err(mismatch) => outcome matches Err(error) && error@ == mismatch,
    }
}

/// Whether each of `players` holds at least one pair.
pub open spec fn all_hold_a_result(players: Seq<PlayerRecord>) -> bool {
    forall|k: int| 0 <= k < players.len() ==> (#[trigger] players[k]).results.len() > 0
}

/// Finds the first page tagged `(row_page, col_page)`.
fn find_page(pages: &Vec<PageResult>, row_page: u16, col_page: u16) -> (k: usize)
    ensures
        k == page_index(page_views(pages@), row_page as int, col_page as int),
        k <= pages.len(),
{
    let ghost all = page_views(pages@);
    let mut k: usize = 0;
    assert(all.skip(0) == all);
    while k < pages.len() && !(pages[k].row_page == row_page && pages[k].col_page == col_page)
        invariant
            k <= pages.len(),
            all == page_views(pages@),
            page_index(all, row_page as int, col_page as int) == k + page_index(
                all.skip(k as int),
                row_page as int,
                col_page as int,
            ),
        decreases pages.len() - k,
    {
        assert(all.skip(k as int).drop_first() == all.skip(k + 1));
        assert(all.skip(k as int).first() == pages@[k as int]@);
        k += 1;
    }
    proof {
        if k < pages.len() {
            assert(all.skip(k as int).first() == pages@[k as int]@);
        }
    }
    k
}

/// Appends the pairs of `source` to `target`.
fn append_results(target: &mut Vec<(u16, u16)>, source: &Vec<(u16, u16)>)
    ensures
        final(target)@ == old(target)@ + source@,
{
    let mut i: usize = 0;
    while i < source.len()
        invariant
            i <= source.len(),
            target@ == old(target)@ + source@.take(i as int),
        decreases source.len() - i,
    {
        target.push(source[i]);
        assert(source@.take(i + 1) == source@.take(i as int).push(source@[i as int]));
        i += 1;
    }
    assert(source@.take(source.len() as int) == source@);
}

/// Where the column-pages of row-page `row_page` stand in `pages`.
fn column_pages(pages: &Vec<PageResult>, row_page: u16, col_pages: u16) -> (columns: Vec<usize>)
    ensures
        columns.len() == col_pages,
        forall|c: int|
            0 <= c < col_pages ==> #[trigger] columns[c] == page_index(
                page_views(pages@),
                row_page as int,
                c + 1,
            ),
{
    let mut columns: Vec<usize> = Vec::new();
    let mut c: u16 = 0;
    while c < col_pages
        invariant
            c <= col_pages,
            columns.len() == c,
            forall|j: int|
                0 <= j < c ==> #[trigger] columns[j] == page_index(
                    page_views(pages@),
                    row_page as int,
                    j + 1,
                ),
        decreases col_pages - c,
    {
        c += 1;
        columns.push(find_page(pages, row_page, c));
    }
    columns
}

/// Joins the fragments of the player in row `row`, over the column-pages
/// whose positions `columns` gives.
fn merge_player(pages: &Vec<PageResult>, columns: &Vec<usize>, row_page: u16, row: usize) -> (results:
    Vec<(u16, u16)>)
    requires
        forall|c: int|
            0 <= c < columns.len() ==> #[trigger] columns[c] == page_index(
                page_views(pages@),
                row_page as int,
                c + 1,
            ),
    ensures
        results@ == merged_results(
            page_views(pages@),
            row_page as int,
            row as int,
            columns.len() as nat,
        ),
{
    let ghost all = page_views(pages@);
    let mut results: Vec<(u16, u16)> = Vec::new();
    let mut c: usize = 0;
    while c < columns.len()
        invariant
            c <= columns.len(),
            all == page_views(pages@),
            forall|j: int|
                0 <= j < columns.len() ==> #[trigger] columns[j] == page_index(
                    all,
                    row_page as int,
                    j + 1,
                ),
            results@ == merged_results(all, row_page as int, row as int, c as nat),
        decreases columns.len() - c,
    {
        let k = columns[c];
        if k < pages.len() {
            let page = &pages[k];
            assert(all[k as int] == page@);
            if row < page.players.len() {
                assert(records(page.players@)[row as int] == page.players@[row as int]@);
                append_results(&mut results, page.players[row].ordered_head_to_heads());
            }
        }
        c += 1;
    }
    results
}

/// The first column-page's fragment is part of the merged record.
proof fn lemma_merged_results_hold_first(
    pages: Seq<PageRecords>,
    row_page: int,
    row: int,
    col_pages: nat,
)
    requires
        col_pages >= 1,
    ensures
        merged_results(pages, row_page, row, col_pages).len() >= fragment(
            pages,
            row_page,
            1,
            row,
        ).len(),
    decreases col_pages,
{
    if col_pages > 1 {
        lemma_merged_results_hold_first(pages, row_page, row, (col_pages - 1) as nat);
    } else {
        assert(merged_results(pages, row_page, row, 0) == Seq::<(u16, u16)>::empty());
    }
}

/// Merges the fragments of `pages` into one record per player: row-pages from
/// 1 to `row_pages` in that order, and within a row-page the column-pages from
/// 1 to `col_pages` in that order.
pub fn merge_pages(pages: &Vec<PageResult>, row_pages: u16, col_pages: u16) -> (matrix: Vec<
    PlayerH2H,
>)
    ensures
        records(matrix@) == merged_matrix(
            page_views(pages@),
            row_pages as nat,
            col_pages as nat,
        ),
        all_hold_a_result(records(matrix@)),
{
    let ghost all = page_views(pages@);
    let mut matrix: Vec<PlayerH2H> = Vec::new();
    let mut r: u16 = 0;
    while r < row_pages
        invariant
            r <= row_pages,
            all == page_views(pages@),
            records(matrix@) == merged_matrix(all, r as nat, col_pages as nat),
            all_hold_a_result(records(matrix@)),
        decreases row_pages - r,
    {
        r += 1;
        let ghost before = records(matrix@);
        let ghost merged = merged_row_page(all, r as int, col_pages as nat);
        if col_pages > 0 {
            let columns = column_pages(pages, r, col_pages);
            let first = columns[0];
            if first < pages.len() {
                let names = &pages[first].players;
                assert(all[first as int] == pages@[first as int]@);
                assert(page_players(all, r as int, 1) == records(names@));
                let mut row: usize = 0;
                while row < names.len()
                    invariant
                        row <= names.len(),
                        col_pages > 0,
                        columns.len() == col_pages,
                        all == page_views(pages@),
                        merged == merged_row_page(all, r as int, col_pages as nat),
                        page_players(all, r as int, 1) == records(names@),
                        forall|c: int|
                            0 <= c < col_pages ==> #[trigger] columns[c] == page_index(
                                all,
                                r as int,
                                c + 1,
                            ),
                        records(matrix@) == before + merged.take(row as int),
                        all_hold_a_result(records(matrix@)),
                    decreases names.len() - row,
                {
                    let results = merge_player(pages, &columns, r, row);
                    let player = &names[row];
                    let name = player.player_name().clone();
                    let first_fragment = player.ordered_head_to_heads();
                    proof {
                        assert(records(names@)[row as int] == player@);
                        assert(fragment(all, r as int, 1, row as int) == first_fragment@);
                        lemma_merged_results_hold_first(all, r as int, row as int, col_pages as nat);
                    }
                    let ghost held = matrix@;
                    match PlayerH2H::new(name, results) {
                        Some(merged_player) => {
                            matrix.push(merged_player);
                            proof {
                                assert(records(matrix@) == records(held).push(merged_player@));
                                assert(merged[row as int] == merged_player@);
                                assert(merged.take(row + 1) == merged.take(row as int).push(
                                    merged[row as int],
                                ));
                            }
                        },
                        None => {},
                    }
                    row += 1;
                }
            }
        }
        assert(records(matrix@) == before + merged);
    }
    matrix
}

/// `first_mismatch` is the least position of a record that does not hold
/// `expected` pairs.
pub proof fn lemma_first_mismatch(players: Seq<PlayerRecord>, expected: nat)
    ensures
        first_mismatch(players, expected) <= players.len(),
        forall|j: int|
            0 <= j < first_mismatch(players, expected) ==> (#[trigger] players[j]).results.len()
                == expected,
        first_mismatch(players, expected) < players.len() ==> players[first_mismatch(
            players,
            expected,
        ) as int].results.len() != expected,
    decreases players.len(),
{
    if !(players.len() == 0 || players.first().results.len() != expected) {
        let rest = players.drop_first();
        lemma_first_mismatch(rest, expected);
        assert forall|j: int| 0 <= j < first_mismatch(players, expected) implies (
        #[trigger] players[j]).results.len() == expected by {
            if j > 0 {
                assert(players[j] == rest[j - 1]);
            }
        }
        if first_mismatch(players, expected) < players.len() {
            assert(players[first_mismatch(players, expected) as int] == rest[first_mismatch(
                rest,
                expected,
            ) as int]);
        }
    }
}

/// Assembly succeeds exactly where every merged record spans the opponent
/// count, and then returns the merged records; where it fails, it reports a
/// merged record that does not span it, with both lengths.
pub proof fn lemma_assembled_checks_every_length(
    pages: Seq<PageRecords>,
    row_pages: nat,
    col_pages: nat,
    opponent_count: nat,
)
    ensures
        ({
            let matrix = merged_matrix(pages, row_pages, col_pages);
            match assembled(pages, row_pages, col_pages, opponent_count) {
                Ok(players) => players == matrix && forall|k: int|
                    0 <= k < matrix.len() ==> (#[trigger] matrix[k]).results.len()
                        == opponent_count,
                Err(mismatch) => mismatch.expected == opponent_count && mismatch.actual
                    != opponent_count && exists|k: int|
                    0 <= k < matrix.len() && (#[trigger] matrix[k]).name == mismatch.name
                        && matrix[k].results.len() == mismatch.actual,
            }
        }),
{
    let matrix = merged_matrix(pages, row_pages, col_pages);
    lemma_first_mismatch(matrix, opponent_count);
}

/// Merges the fragments of `pages`, and checks that every merged record
/// spans `opponent_count` columns. Fails for the first record that does not.
pub fn assemble_matrix(
    pages: &Vec<PageResult>,
    row_pages: u16,
    col_pages: u16,
    opponent_count: u16,
) -> (r: Result<Vec<PlayerH2H>, MatrixAssemblyError>)
    ensures
        assembly_outcome_is(
            r,
            assembled(
                page_views(pages@),
                row_pages as nat,
                col_pages as nat,
                opponent_count as nat,
            ),
        ),
        r matches Ok(players) ==> all_hold_a_result(records(players@)),
{
    let matrix = merge_pages(pages, row_pages, col_pages);
    let ghost merged = records(matrix@);
    let mut k: usize = 0;
    assert(merged.skip(0) == merged);
    while k < matrix.len()
        invariant
            k <= matrix.len(),
            merged == records(matrix@),
            merged == merged_matrix(page_views(pages@), row_pages as nat, col_pages as nat),
            first_mismatch(merged, opponent_count as nat) == k + first_mismatch(
                merged.skip(k as int),
                opponent_count as nat,
            ),
        decreases matrix.len() - k,
    {
        let player = &matrix[k];
        let actual = player.ordered_head_to_heads().len();
        proof {
            assert(merged[k as int] == player@);
            assert(merged.skip(k as int).first() == player@);
            assert(merged.skip(k as int).drop_first() == merged.skip(k + 1));
        }
        if actual != opponent_count as usize {
            return Err(
                MatrixAssemblyError {
                    player_name: player.player_name().clone(),
                    expected: opponent_count,
                    actual,
                },
            );
        }
        k += 1;
    }
    Ok(matrix)
}

/// Whether no two of `pages` carry the same tag.
pub open spec fn tags_distinct(pages: Seq<PageRecords>) -> bool {
    forall|i: int, j: int|
        #![trigger pages[i], pages[j]]
        0 <= i < j < pages.len() ==> !(pages[i].row_page == pages[j].row_page && pages[i].col_page
            == pages[j].col_page)
}

/// Whether `a` and `b` hold the same pages, in whatever order.
pub open spec fn same_pages(a: Seq<PageRecords>, b: Seq<PageRecords>) -> bool {
    forall|page: PageRecords| a.contains(page) <==> b.contains(page)
}

/// `page_index` is the least position of a page with the given tag.
pub proof fn lemma_page_index(pages: Seq<PageRecords>, row_page: int, col_page: int)
    ensures
        page_index(pages, row_page, col_page) <= pages.len(),
        forall|j: int|
            0 <= j < page_index(pages, row_page, col_page) ==> !((#[trigger] pages[j]).row_page
                == row_page && pages[j].col_page == col_page),
        page_index(pages, row_page, col_page) < pages.len() ==> pages[page_index(
            pages,
            row_page,
            col_page,
        ) as int].row_page == row_page && pages[page_index(pages, row_page, col_page) as int].col_page
            == col_page,
    decreases pages.len(),
{
    if !(pages.len() == 0 || (pages.first().row_page == row_page && pages.first().col_page
        == col_page)) {
        let rest = pages.drop_first();
        lemma_page_index(rest, row_page, col_page);
        assert forall|j: int| 0 <= j < page_index(pages, row_page, col_page) implies !((
        #[trigger] pages[j]).row_page == row_page && pages[j].col_page == col_page) by {
            if j > 0 {
                assert(pages[j] == rest[j - 1]);
            }
        }
        if page_index(pages, row_page, col_page) < pages.len() {
            assert(pages[page_index(pages, row_page, col_page) as int] == rest[page_index(
                rest,
                row_page,
                col_page,
            ) as int]);
        }
    }
}

/// Where tags are distinct, the fragments under a tag depend on which pages
/// there are, and not on their order.
pub proof fn lemma_page_players_ignore_order(
    a: Seq<PageRecords>,
    b: Seq<PageRecords>,
    row_page: int,
    col_page: int,
)
    requires
        tags_distinct(a),
        tags_distinct(b),
        same_pages(a, b),
    ensures
        page_players(a, row_page, col_page) == page_players(b, row_page, col_page),
{
    lemma_page_index(a, row_page, col_page);
    lemma_page_index(b, row_page, col_page);
    let ka = page_index(a, row_page, col_page) as int;
    let kb = page_index(b, row_page, col_page) as int;
    if ka < a.len() {
        assert(a.contains(a[ka]));
        assert(b.contains(a[ka]));
        let j = choose|j: int| 0 <= j < b.len() && b[j] == a[ka];
        assert(kb <= j);
        if kb < j {
            assert(b[kb].row_page == b[j].row_page && b[kb].col_page == b[j].col_page);
        }
    } else if kb < b.len() {
        assert(b.contains(b[kb]));
        assert(a.contains(b[kb]));
        let j = choose|j: int| 0 <= j < a.len() && a[j] == b[kb];
        assert(a[j].row_page == row_page);
    }
}

/// Where tags are distinct, a merged record does not depend on the order of
/// the pages.
pub proof fn lemma_merged_results_ignore_order(
    a: Seq<PageRecords>,
    b: Seq<PageRecords>,
    row_page: int,
    row: int,
    col_pages: nat,
)
    requires
        tags_distinct(a),
        tags_distinct(b),
        same_pages(a, b),
    ensures
        merged_results(a, row_page, row, col_pages) == merged_results(b, row_page, row, col_pages),
    decreases col_pages,
{
    if col_pages > 0 {
        lemma_merged_results_ignore_order(a, b, row_page, row, (col_pages - 1) as nat);
        lemma_page_players_ignore_order(a, b, row_page, col_pages as int);
    }
}

/// Where tags are distinct, the merged matrix does not depend on the order
/// of the pages.
pub proof fn lemma_merged_matrix_ignores_order(
    a: Seq<PageRecords>,
    b: Seq<PageRecords>,
    row_pages: nat,
    col_pages: nat,
)
    requires
        tags_distinct(a),
        tags_distinct(b),
        same_pages(a, b),
    ensures
        merged_matrix(a, row_pages, col_pages) == merged_matrix(b, row_pages, col_pages),
    decreases row_pages,
{
    if row_pages > 0 {
        lemma_merged_matrix_ignores_order(a, b, (row_pages - 1) as nat, col_pages);
        let r = row_pages as int;
        lemma_page_players_ignore_order(a, b, r, 1);
        assert forall|row: int| 0 <= row < page_players(a, r, 1).len() implies merged_results(
            a,
            r,
            row,
            col_pages,
        ) == merged_results(b, r, row, col_pages) by {
            lemma_merged_results_ignore_order(a, b, r, row, col_pages);
        }
        assert(merged_row_page(a, r, col_pages) =~= merged_row_page(b, r, col_pages));
    }
}

/// Fragments are merged by the tags of their pages, not by the order in
/// which the pages arrive: two lists of the same pages, each page tagged
/// with its own place in the grid, assemble to the same result.
pub proof fn lemma_assembly_ignores_arrival_order(
    a: Seq<PageRecords>,
    b: Seq<PageRecords>,
    row_pages: nat,
    col_pages: nat,
    opponent_count: nat,
)
    requires
        tags_distinct(a),
        tags_distinct(b),
        same_pages(a, b),
    ensures
        assembled(a, row_pages, col_pages, opponent_count) == assembled(
            b,
            row_pages,
            col_pages,
            opponent_count,
        ),
{
    lemma_merged_matrix_ignores_order(a, b, row_pages, col_pages);
}

/// Pages that arrive in the reverse of their order assemble to the same
/// result.
pub proof fn lemma_assembly_ignores_reversal(
    pages: Seq<PageRecords>,
    row_pages: nat,
    col_pages: nat,
    opponent_count: nat,
)
    requires
        tags_distinct(pages),
    ensures
        assembled(pages.reverse(), row_pages, col_pages, opponent_count) == assembled(
            pages,
            row_pages,
            col_pages,
            opponent_count,
        ),
{
    let reversed = pages.reverse();
    let n = pages.len() as int;
    assert forall|i: int, j: int| 0 <= i < j < reversed.len() implies !((
    #[trigger] reversed[i]).row_page == (#[trigger] reversed[j]).row_page && reversed[i].col_page
        == reversed[j].col_page) by {
        assert(reversed[i] == pages[n - 1 - i]);
        assert(reversed[j] == pages[n - 1 - j]);
    }
    assert forall|page: PageRecords| reversed.contains(page) <==> pages.contains(page) by {
        if reversed.contains(page) {
            let i = choose|i: int| 0 <= i < reversed.len() && reversed[i] == page;
            assert(pages[n - 1 - i] == page);
        }
        if pages.contains(page) {
            let i = choose|i: int| 0 <= i < pages.len() && pages[i] == page;
            assert(reversed[n - 1 - i] == page);
        }
    }
    lemma_assembly_ignores_arrival_order(reversed, pages, row_pages, col_pages, opponent_count);
}

} // verus!
