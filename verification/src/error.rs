//! What can go wrong while one league's pages are fetched, read and merged.

use vstd::prelude::*;

verus! {

/// Why a page could not be used. Any of these ends the work on the league
/// that the page belongs to, and on no other.
#[derive(Clone, Copy, Debug, PartialEq, Eq, Structural)]
pub enum PageError {
    /// The connection failed or timed out.
    Transport,
    /// The server answered with a status outside the 2xx range.
    HttpStatus { status: u16 },
    /// The body of the answer is not valid text.
    Decoding,
    /// The document holds fewer than two tables.
    TableNotFound,
    /// The document holds no row/column-count label.
    LabelNotFound,
    /// The label does not end in `of` and an integer.
    LabelParse,
}

/// The error that an answer with HTTP status `status` amounts to: none for a
/// status from 200 to 299, `HttpStatus` for any other.
pub fn status_error(status: u16) -> (r: Option<PageError>)
    ensures
        r == if 200 <= status <= 299 {
            None
        } else {
            Some(PageError::HttpStatus { status })
        },
{
    if 200 <= status && status <= 299 {
        None
    } else {
        Some(PageError::HttpStatus { status })
    }
}

} // verus!
