//! How many pages cover a matrix: the count that a page's label reports,
//! divided by the page width and rounded up.

use crate::error::PageError;
use crate::text::{
    chars_of, decimal_u16, find_last_pair, first_token, last_pair, parse_u16_range, whitespace_end,
    word_end,
};
use vstd::prelude::*;

verus! {

/// The greatest number of rows, and of columns, that the site returns in one
/// page.
pub const ROW_COL_MAX_VAL: u16 = 50;

/// The count that a label of the form `a to b of N rows` reports: the first
/// word after the last `of`, read as a 16-bit decimal.
pub open spec fn label_count(label: Seq<char>) -> Option<u16> {
    match last_pair(label, 'o', 'f') {
        None => None,
        Some(i) => decimal_u16(first_token(label.skip(i + 2))),
    }
}

/// The number of pages of `page_width` entries that hold `count` entries:
/// `count / page_width`, rounded up.
pub open spec fn pages_needed(count: nat, page_width: nat) -> nat
    recommends
        page_width > 0,
{
    ((count + page_width - 1) / (page_width as int)) as nat
}

/// `pages_needed` pages hold `count` entries, and no smaller number `p` of
/// pages does.
pub proof fn lemma_pages_needed_is_least(count: nat, page_width: nat, p: nat)
    requires
        page_width > 0,
    ensures
        pages_needed(count, page_width) * page_width >= count,
        p * page_width >= count ==> p >= pages_needed(count, page_width),
{
    let w = page_width as int;
    let q = (count + w - 1) / w;
    assert(q * w >= count && q * w - w < count && q >= 0) by (nonlinear_arith)
        requires
            w > 0,
            count >= 0,
            q == (count + w - 1) / w,
    ;
    assert(pages_needed(count, page_width) == q);
    if p < q {
        assert(p * w <= q * w - w) by (nonlinear_arith)
            requires
                p <= q - 1,
                w > 0,
        ;
    }
}

/// Reads the count that `label` reports, as `label_count` describes.
pub fn parse_label_count(label: &str) -> (count: Option<u16>)
    ensures
        count == label_count(label@),
{
    let chars = chars_of(label);
    let len = chars.len();
    match find_last_pair(&chars, 'o', 'f') {
        None => None,
        Some(i) => {
            let a = whitespace_end(&chars, i + 2, len);
            let end = word_end(&chars, a, len);
            proof {
                let rest = label@.skip(i + 2);
                assert(chars@.subrange(i + 2, len as int) == rest);
            }
            parse_u16_range(&chars, a, end)
        },
    }
}

/// The number of pages that hold `count` entries.
pub fn pages_for_count(count: u16, page_width: u16) -> (pages: u16)
    requires
        page_width > 0,
    ensures
        pages == pages_needed(count as nat, page_width as nat),
{
    let total: u32 = count as u32 + page_width as u32 - 1;
    let pages: u32 = total / page_width as u32;
    assert(pages <= total) by (nonlinear_arith)
        requires
            pages == total / (page_width as u32),
            page_width > 0,
    ;
    assert(pages <= u16::MAX) by (nonlinear_arith)
        requires
            pages == total / (page_width as u32),
            page_width > 0,
            total == count + page_width - 1,
            count <= u16::MAX,
    ;
    pages as u16
}

/// The number of pages that the count on `label` calls for. Fails with
/// `LabelParse` where the label reports no count.
pub fn pages_from_label(label: &str, page_width: u16) -> (r: Result<u16, PageError>)
    requires
        page_width > 0,
    ensures
        r == match label_count(label@) {
            Some(count) => Ok::<u16, PageError>(
                pages_needed(count as nat, page_width as nat) as u16,
            ),
            None => Err(PageError::LabelParse),
        },
{
    match parse_label_count(label) {
        Some(count) => Ok(pages_for_count(count, page_width)),
        None => Err(PageError::LabelParse),
    }
}

} // verus!
