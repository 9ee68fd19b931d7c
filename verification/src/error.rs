//! The failure kinds of the library's fallible operations.

use vstd::prelude::*;

verus! {

/// The errors that matrix and graph operations can report.
#[derive(Clone, Copy, Debug, PartialEq, Eq, Structural)]
pub enum Error {
    /// A row or column index was not below its bound.
    IndexOutOfRange,
    /// A fixed-point score computation left the range of `u64`.
    ScoreOverflow,
}

} // verus!
