//! The ways in which an encoding or decoding request can be refused.

use vstd::prelude::*;

verus! {

/// Why a geohash could not be produced or read.
#[derive(Clone, Copy, Debug, PartialEq, Eq, Structural)]
pub enum GeohashError {
    /// A character of the input is not one of the 32 symbols of the alphabet.
    InvalidSymbol,
    /// More symbols were requested than the grid can resolve exactly.
    InvalidPrecision,
}

} // verus!
