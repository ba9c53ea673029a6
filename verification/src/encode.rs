//! From a point to its geohash.

use vstd::prelude::*;
use crate::alphabet::symbol_for;
use crate::angle::Angle;
use crate::error::GeohashError;
use crate::grid::{cell_at, geohash, stream_bit, symbol_value, MAX_PRECISION};
use crate::interval::Bisection;

verus! {

/// The value of the first `count` bits of symbol `k`, read as a binary number.
pub open spec fn symbol_prefix(lat: int, lng: int, k: nat, count: nat) -> int
    decreases count,
{
    if count == 0 {
        0
    } else {
        2 * symbol_prefix(lat, lng, k, (count - 1) as nat) + stream_bit(
            lat,
            lng,
            (5 * k + count - 1) as nat,
        )
    }
}

/// All five bits of a symbol make its value, and fewer bits stay below 16.
proof fn lemma_symbol_prefix(lat: int, lng: int, k: nat)
    ensures
        symbol_prefix(lat, lng, k, 5) == symbol_value(lat, lng, k),
        forall|count: nat| count < 5 ==> 0 <= #[trigger] symbol_prefix(lat, lng, k, count) < 16,
{
    reveal_with_fuel(symbol_prefix, 6);
}

/// Appends a character with `String::push`, which adds exactly that character at
/// the end of the string and changes nothing before it.
#[verifier::external_body]
fn push_symbol(text: &mut String, symbol: char)
    ensures
        final(text)@ == old(text)@.push(symbol),
{
    text.push(symbol);
}

/// Whether `result` is what `encode` owes for a point and a precision: the
/// geohash of the point for a precision of at most `MAX_PRECISION`, and
/// `InvalidPrecision` for any greater one.
pub open spec fn is_encoding(
    lat: int,
    lng: int,
    precision: nat,
    result: Result<String, GeohashError>,
) -> bool {
    match result {
        Ok(text) => precision <= MAX_PRECISION && text@ == geohash(lat, lng, precision),
        Err(e) => precision > MAX_PRECISION && e == GeohashError::InvalidPrecision,
    }
}

/// Encodes a point as a geohash of `precision` symbols.
///
/// Each axis starts at its full range. Bits are produced in turn for longitude
/// and latitude, longitude first: a bit is 1 if the coordinate lies strictly
/// above the midpoint of its interval, which is then halved accordingly. A
/// coordinate equal to a midpoint falls into the lower half, on both axes. Every
/// five bits make one symbol, the first bit the most significant.
///
/// A precision of zero gives the empty string. More than `MAX_PRECISION`
/// symbols are refused, because the cells would be smaller than the units can
/// tell apart. A latitude beyond 90 degrees is no error: it is bisected like any
/// other and ends in a cell at the edge of the grid.
pub fn encode(lat: Angle, lng: Angle, precision: usize) -> (result: Result<String, GeohashError>)
    ensures
        is_encoding(lat@, lng@, precision as nat, result),
{
    if precision > MAX_PRECISION {
        return Err(GeohashError::InvalidPrecision);
    }
    let lat_units: i64 = lat.units();
    let lng_units: i64 = lng.units();
    let mut state = Bisection::start();
    let mut text = String::new();
    let mut k: usize = 0;
    while k < precision
        invariant
            k <= precision <= MAX_PRECISION,
            lat_units == lat@,
            lng_units == lng@,
            state.wf(),
            state@ == cell_at(lat@, lng@, (5 * k) as nat),
            text@ == geohash(lat@, lng@, k as nat),
        decreases precision - k,
    {
        let mut value: u8 = 0;
        let mut i: usize = 0;
        while i < 5
            invariant
                i <= 5,
                k < MAX_PRECISION,
                lat_units == lat@,
                lng_units == lng@,
                state.wf(),
                state@ == cell_at(lat@, lng@, (5 * k + i) as nat),
                value == symbol_prefix(lat@, lng@, k as nat, i as nat),
            decreases 5 - i,
        {
            proof {
                lemma_symbol_prefix(lat@, lng@, k as nat);
            }
            let bit: u8 = state.bit_for(lat_units, lng_units);
            state = state.refine(bit);
            value = 2 * value + bit;
            i += 1;
        }
        proof {
            lemma_symbol_prefix(lat@, lng@, k as nat);
        }
        push_symbol(&mut text, symbol_for(value));
        k += 1;
    }
    Ok(text)
}

} // verus!
