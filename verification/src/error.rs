//! The one error kind that construction of grids, patterns and rules can
//! report.  Once a value is built, stepping never fails: exhaustion is an
//! ordinary `false` return, not an error.

use vstd::prelude::*;

verus! {

/// Why a grid, pattern or rule could not be built.
#[derive(Clone, Copy, Debug, PartialEq, Eq, Structural)]
pub enum ConstructionError {
    /// The alphabet holds no symbol.
    EmptyAlphabet,
    /// The alphabet holds the reserved wildcard `*`.
    WildcardInAlphabet,
    /// A grid dimension is zero.
    ZeroGridDimension,
    /// A pattern array has no rows or an empty first row.
    EmptyPattern,
    /// The `find` and `replace` arrays are ragged or differ in dimensions.
    ShapeMismatch,
}

} // verus!
