//! What makes a trace or a proof fail the cross-table argument.

use vstd::prelude::*;
use crate::table::Table;

verus! {

#[derive(Clone, Copy, Debug, PartialEq, Eq, Structural)]
pub enum CtlError {
    /// A filter evaluated to neither 0 nor 1 at this row.
    NonBinaryFilter { row: usize },
    /// The products of lookup number `index` do not agree.
    LookupMismatch { index: usize },
    /// The openings given for this table are not as many as its lookups need.
    OpeningCount { table: Table },
}

} // verus!
