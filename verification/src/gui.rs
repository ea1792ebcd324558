//! Data shapes handed to the graphical front end.
//!
//! The front end itself is an outside collaborator; these are the plain
//! values it exchanges with the core: rendered result rows, their
//! headers, and the sort state of the result table.

use vstd::prelude::*;

verus! {

/// The sort state of the result table: a clicked column sorts ascending,
/// a second click descending, and `Default` leaves the result order.
#[derive(Debug, Clone, Copy, PartialEq, Eq, Structural)]
pub enum SortDirection {
    Ascending,
    Descending,
    Default,
}

/// One rendered result row: one string per shown column.
#[derive(Clone, Debug)]
pub struct GuiResultRow {
    pub columns: Vec<String>,
}

/// A completed query's rendered result: headers, the rows on show, the
/// full row set kept back for pagination, and bookkeeping.
#[derive(Clone, Debug)]
pub struct QueryResultData {
    pub headers: Vec<String>,
    pub rows: Vec<GuiResultRow>,
    /// All rows, for pagination.
    pub all_rows: Option<Vec<GuiResultRow>>,
    /// Wall-clock execution time, in milliseconds.
    pub execution_time: u128,
    pub is_file_results: bool,
}

} // verus!
