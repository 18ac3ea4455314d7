//! One fetched page: where its head-to-head table and its count label stand
//! in the document, and what they yield.

use crate::dom::{
    document_matches, element_matches, element_text, parse_selector, select_in_document,
    select_in_element, selector_of, text_of,
};
use crate::error::PageError;
use crate::pagination::{label_count, pages_for_count, pages_needed, parse_label_count, ROW_COL_MAX_VAL};
use crate::record::{
    players_from_rows, records, row_outcome_is, row_record, row_texts, table_records, texts,
    HtmlRow, PlayerH2H, PlayerRecord, RowParseError, RowTexts,
};
use scraper::{ElementRef, Html, Selector};
use vstd::prelude::*;

verus! {

/// The selector for the tables of a document.
pub open spec fn table_selector() -> Selector {
    selector_of("table"@)->0
}

/// The selector for the rows of a table.
pub open spec fn row_selector() -> Selector {
    selector_of("tr"@)->0
}

/// The selector for the header cells of a row.
pub open spec fn header_selector() -> Selector {
    selector_of("th"@)->0
}

/// The selector for the data cells of a row.
pub open spec fn cell_selector() -> Selector {
    selector_of("td"@)->0
}

/// The selector for the row/column-count labels of a document.
pub open spec fn count_label_selector() -> Selector {
    selector_of("div.input-group-addon.my-input-group-addon"@)->0
}

/// Whether the selector compiler accepts all five selectors.
pub open spec fn selectors_compile() -> bool {
    &&& selector_of("table"@) is Some
    &&& selector_of("tr"@) is Some
    &&& selector_of("th"@) is Some
    &&& selector_of("td"@) is Some
    &&& selector_of("div.input-group-addon.my-input-group-addon"@) is Some
}

/// The five selectors that reading a page takes, compiled once.
pub struct PageSelectors {
    table: Selector,
    row: Selector,
    header: Selector,
    cell: Selector,
    count_label: Selector,
}

impl PageSelectors {
    #[verifier::type_invariant]
    spec fn compiled(&self) -> bool {
        &&& selectors_compile()
        &&& self.table == table_selector()
        &&& self.row == row_selector()
        &&& self.header == header_selector()
        &&& self.cell == cell_selector()
        &&& self.count_label == count_label_selector()
    }

    /// Compiles the selectors; `None` where the compiler rejects one of them.
    pub fn new() -> (r: Option<PageSelectors>)
        ensures
            r is Some <==> selectors_compile(),
    {
        let table = parse_selector("table");
        let row = parse_selector("tr");
        let header = parse_selector("th");
        let cell = parse_selector("td");
        let count_label = parse_selector("div.input-group-addon.my-input-group-addon");
        match (table, row, header, cell, count_label) {
            (Some(table), Some(row), Some(header), Some(cell), Some(count_label)) => Some(
                PageSelectors { table, row, header, cell, count_label },
            ),
            _ => None,
        }
    }
}

/// The texts of `elements`.
pub open spec fn element_texts(elements: Seq<ElementRef<'static>>) -> Seq<Seq<char>> {
    elements.map_values(|e: ElementRef<'static>| text_of(e))
}

/// The texts of the header cells and of the data cells below `row`.
pub open spec fn row_of(row: ElementRef<'static>) -> RowTexts {
    RowTexts {
        headers: element_texts(element_matches(row, header_selector())),
        cells: element_texts(element_matches(row, cell_selector())),
    }
}

/// The rows below `table`.
pub open spec fn rows_of(table: ElementRef<'static>) -> Seq<RowTexts> {
    element_matches(table, row_selector()).map_values(|r: ElementRef<'static>| row_of(r))
}

/// The head-to-head table of `doc`: the second of its tables. With fewer
/// than two tables there is none.
pub open spec fn h2h_table_of(doc: Html) -> Option<ElementRef<'static>> {
    let tables = document_matches(doc, table_selector());
    if tables.len() < 2 {
        None
    } else {
        Some(tables[1])
    }
}

/// The records that the head-to-head table of `doc` yields.
pub open spec fn document_records(doc: Html) -> Result<Seq<PlayerRecord>, PageError> {
    match h2h_table_of(doc) {
        Some(table) => Ok(table_records(rows_of(table))),
        None => Err(PageError::TableNotFound),
    }
}

/// The count that the first count label of `doc` reports.
pub open spec fn document_count(doc: Html) -> Result<u16, PageError> {
    let labels = document_matches(doc, count_label_selector());
    if labels.len() == 0 {
        Err(PageError::LabelNotFound)
    } else {
        match label_count(text_of(labels[0])) {
            Some(count) => Ok(count),
            None => Err(PageError::LabelParse),
        }
    }
}

/// Whether `outcome` is what `expected` describes.
pub open spec fn players_outcome_is(
    outcome: Result<Vec<PlayerH2H>, PageError>,
    expected: Result<Seq<PlayerRecord>, PageError>,
) -> bool {
    match expected {
        Ok(expected_records) => outcome matches Ok(players) && records(players@)
            == expected_records,
        Err(e) => outcome matches Err(error) && error == e,
    }
}

/// The text of each of `elements`.
fn texts_of_elements(elements: &Vec<ElementRef<'_>>) -> (r: Vec<String>)
    ensures
        texts(r@) == element_texts(elements@),
{
    let mut r: Vec<String> = Vec::new();
    let mut i: usize = 0;
    while i < elements.len()
        invariant
            i <= elements.len(),
            texts(r@) == element_texts(elements@.take(i as int)),
        decreases elements.len() - i,
    {
        let ghost before = r@;
        let text = element_text(elements[i]);
        r.push(text);
        proof {
            assert(texts(r@) == texts(before).push(text@));
            assert(elements@.take(i + 1) == elements@.take(i as int).push(elements@[i as int]));
            assert(element_texts(elements@.take(i + 1)) == element_texts(
                elements@.take(i as int),
            ).push(text_of(elements@[i as int])));
        }
        i += 1;
    }
    assert(elements@.take(elements.len() as int) == elements@);
    r
}

/// The texts of the header cells and of the data cells below `row`.
pub fn read_row(row: ElementRef<'_>, selectors: &PageSelectors) -> (r: HtmlRow)
    ensures
        r@ == row_of(row),
{
    proof {
        use_type_invariant(selectors);
    }
    let headers = select_in_element(row, &selectors.header);
    let cells = select_in_element(row, &selectors.cell);
    HtmlRow { header_texts: texts_of_elements(&headers), cell_texts: texts_of_elements(&cells) }
}

/// The rows below `table`.
pub fn read_table(table: ElementRef<'_>, selectors: &PageSelectors) -> (rows: Vec<HtmlRow>)
    ensures
        row_texts(rows@) == rows_of(table),
{
    proof {
        use_type_invariant(selectors);
    }
    let elements = select_in_element(table, &selectors.row);
    let mut rows: Vec<HtmlRow> = Vec::new();
    let mut i: usize = 0;
    while i < elements.len()
        invariant
            i <= elements.len(),
            elements@ == element_matches(table, row_selector()),
            row_texts(rows@) == elements@.take(i as int).map_values(
                |r: ElementRef<'static>| row_of(r),
            ),
        decreases elements.len() - i,
    {
        let ghost before = rows@;
        let row = read_row(elements[i], selectors);
        rows.push(row);
        proof {
            assert(row_texts(rows@) == row_texts(before).push(row@));
            assert(elements@.take(i + 1) == elements@.take(i as int).push(elements@[i as int]));
            assert(elements@.take(i + 1).map_values(|r: ElementRef<'static>| row_of(r))
                == elements@.take(i as int).map_values(|r: ElementRef<'static>| row_of(r)).push(
                row_of(elements@[i as int]),
            ));
        }
        i += 1;
    }
    assert(elements@.take(elements.len() as int) == elements@);
    rows
}

impl PlayerH2H {
    /// Reads the record that the table row `html_row` holds.
    pub fn from_html_row(html_row: &ElementRef<'_>, selectors: &PageSelectors) -> (r: Result<
        Option<PlayerH2H>,
        RowParseError,
    >)
        ensures
            row_outcome_is(r, row_record(row_of(*html_row))),
    {
        let row = read_row(*html_row, selectors);
        PlayerH2H::from_row_texts(&row)
    }
}

/// Reads the records that the rows of `h2h_table` hold.
pub fn read_table_to_sub_player_h2h(h2h_table: ElementRef<'_>, selectors: &PageSelectors) -> (players:
    Vec<PlayerH2H>)
    ensures
        records(players@) == table_records(rows_of(h2h_table)),
{
    let rows = read_table(h2h_table, selectors);
    players_from_rows(&rows)
}

/// Finds the head-to-head table of `html_doc`: the second of its tables, the
/// first being a table about the page. Fails with `TableNotFound` where the
/// document has fewer than two tables.
pub fn find_h2h_table<'a>(html_doc: &'a Html, selectors: &PageSelectors) -> (r: Result<
    ElementRef<'a>,
    PageError,
>)
    ensures
        match h2h_table_of(*html_doc) {
            Some(table) => r == Ok::<ElementRef<'a>, PageError>(table),
            None => r == Err::<ElementRef<'a>, PageError>(PageError::TableNotFound),
        },
{
    proof {
        use_type_invariant(selectors);
    }
    let tables = select_in_document(html_doc, &selectors.table);
    if tables.len() < 2 {
        Err(PageError::TableNotFound)
    } else {
        Ok(tables[1])
    }
}

/// Finds the head-to-head table of `html_doc` and reads the records that it
/// holds. Fails with `TableNotFound` where the document has no such table.
pub fn read_html_response_to_player_h2h(html_doc: Html, selectors: &PageSelectors) -> (r: Result<
    Vec<PlayerH2H>,
    PageError,
>)
    ensures
        players_outcome_is(r, document_records(html_doc)),
{
    match find_h2h_table(&html_doc, selectors) {
        Ok(h2h_table) => Ok(read_table_to_sub_player_h2h(h2h_table, selectors)),
        Err(e) => Err(e),
    }
}

/// Reads the count that the first count label of `html_doc` reports. Fails
/// with `LabelNotFound` where the document has no such label, and with
/// `LabelParse` where the label reports no count.
pub fn row_col_count(html_doc: &Html, selectors: &PageSelectors) -> (r: Result<u16, PageError>)
    ensures
        r == document_count(*html_doc),
{
    proof {
        use_type_invariant(selectors);
    }
    let labels = select_in_document(html_doc, &selectors.count_label);
    if labels.len() == 0 {
        Err(PageError::LabelNotFound)
    } else {
        let label = element_text(labels[0]);
        match parse_label_count(label.as_str()) {
            Some(count) => Ok(count),
            None => Err(PageError::LabelParse),
        }
    }
}

/// The number of pages, of `ROW_COL_MAX_VAL` entries each, that the count on
/// the label of `html_doc` calls for.
pub fn convert_row_col_count_to_num_pages(html_doc: &Html, selectors: &PageSelectors) -> (r: Result<
    u16,
    PageError,
>)
    ensures
        r == match document_count(*html_doc) {
            Ok(count) => Ok::<u16, PageError>(
                pages_needed(count as nat, ROW_COL_MAX_VAL as nat) as u16,
            ),
            Err(e) => Err(e),
        },
{
    match row_col_count(html_doc, selectors) {
        Ok(count) => Ok(pages_for_count(count, ROW_COL_MAX_VAL)),
        Err(e) => Err(e),
    }
}

} // verus!
