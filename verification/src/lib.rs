//! Head-to-head matrices read from paginated HTML result tables.

pub mod dom;
pub mod error;
pub mod league;
pub mod matrix;
pub mod page;
pub mod pagination;
pub mod record;
pub mod text;
