//! From a geohash to the centre of the cell it names.

use vstd::prelude::*;
use crate::alphabet::{is_symbol, value_for};
use crate::angle::Angle;
use crate::bits::{decimal_to_binary, five_digits};
use crate::error::GeohashError;
use crate::grid::{cell_of, decoded, is_geohash, symbol_bit, symbol_values, Cell};
use crate::interval::Bisection;

verus! {

/// The cell after the first `count` bits of a symbol's value.
pub open spec fn refine_by_bits(cell: Cell, value: int, count: nat) -> Cell
    decreases count,
{
    if count == 0 {
        cell
    } else {
        refine_by_bits(cell, value, (count - 1) as nat).refine(symbol_bit(value, count - 1))
    }
}

/// All five bits of a symbol refine a cell as the symbol does.
proof fn lemma_refine_by_bits_complete(cell: Cell, value: int)
    ensures
        refine_by_bits(cell, value, 5) == cell.refine_by_symbol(value),
{
    reveal_with_fuel(refine_by_bits, 6);
}

/// Whether `result` is what `decode` owes for a text: the centre of the cell that
/// the text names if all of its characters are symbols, and `InvalidSymbol` if
/// any is not.
pub open spec fn is_decoding(text: Seq<char>, result: Result<(Angle, Angle), GeohashError>) -> bool {
    match result {
        Ok((lat, lng)) => is_geohash(text) && (lat@, lng@) == decoded(text),
        Err(e) => e == GeohashError::InvalidSymbol && !is_geohash(text),
    }
}

/// Decodes a geohash to the centre of the cell it names, latitude first.
///
/// Both axes start at their full range. Each symbol contributes the five bits of
/// its value, most significant first. The bits halve the longitude and the
/// latitude in turn, starting with the longitude, and the alternation carries on
/// from one symbol to the next. A bit of 1 keeps the upper half of an interval.
///
/// The empty string names the whole earth and decodes to `(0, 0)`. A character
/// outside the alphabet, anywhere in the string, is refused.
///
/// Up to `MAX_PRECISION` symbols every midpoint is a whole number of units and
/// the centre is exact. A longer geohash is accepted too: where a midpoint is
/// no whole number of units it is rounded down, and the result lies in the cell
/// that every beginning of the geohash names.
pub fn decode(geohash: &str) -> (result: Result<(Angle, Angle), GeohashError>)
    ensures
        is_decoding(geohash@, result),
{
    let ghost values = symbol_values(geohash@);
    let mut state = Bisection::start();
    let symbols = geohash.chars();
    for symbol in it: symbols
        invariant
            it.seq() == geohash@,
            values == symbol_values(geohash@),
            state.wf(),
            state.within_limits(),
            forall|j: int| 0 <= j < it.index() ==> is_symbol(#[trigger] geohash@[j]),
            state@ == cell_of(values.take(it.index() as int)),
    {
        let ghost k = it.index();
        let value: u8 = match value_for(symbol) {
            Ok(value) => value,
            Err(e) => {
                return Err(e);
            },
        };
        let bits = decimal_to_binary(value as usize);
        let ghost before = state@;
        let mut i: usize = 0;
        while i < bits.len()
            invariant
                i <= bits@.len() == 5,
                value < 32,
                bits@ == five_digits(value as nat),
                state.wf(),
                state.within_limits(),
                state@ == refine_by_bits(before, value as int, i as nat),
            decreases bits@.len() - i,
        {
            state = state.refine(bits[i]);
            i += 1;
        }
        proof {
            lemma_refine_by_bits_complete(before, value as int);
            let next = values.take(k + 1);
            assert(next.drop_last() == values.take(k as int));
            assert(next.last() == value as int);
        }
    }
    let ghost k = geohash@.len();
    proof {
        assert(values.take(k as int) == values);
    }
    let lat = Angle::from_units(state.lat.midpoint());
    let lng = Angle::from_units(state.lng.midpoint());
    Ok((lat.unwrap(), lng.unwrap()))
}

} // verus!
