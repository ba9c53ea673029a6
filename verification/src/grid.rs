//! The mathematical model: angles as whole numbers of units, the cells of the
//! grid, and what the geohash of a point and the centre of a geohash are.
//!
//! One unit is 2^-45 of a degree. Every boundary and every centre of a cell that
//! up to 18 symbols can name is a whole number of units, so nothing in the model
//! is rounded.

use vstd::prelude::*;
use crate::alphabet::{alphabet, value_of};
use crate::bits::five_digits;

verus! {

/// 90 degrees, in units: the absolute bound of a latitude.
pub const LAT_LIMIT: i64 = 3_166_593_487_994_880;

/// 180 degrees, in units: the absolute bound of a longitude.
pub const LNG_LIMIT: i64 = 6_333_186_975_989_760;

/// The largest number of symbols `encode` produces. With 18 symbols each axis is
/// halved 45 times, the most for which every centre is a whole number of units.
pub const MAX_PRECISION: usize = 18;

/// A closed range of angles on one axis.
pub struct Span {
    pub low: int,
    pub high: int,
}

impl Span {
    /// The angle halfway between the bounds, rounded down where that is no whole
    /// number of units.
    pub open spec fn midpoint(self) -> int {
        (self.low + self.high) / 2
    }

    /// The bit that bisection emits for `x`: 1 if `x` lies strictly above the
    /// midpoint, else 0. An angle equal to the midpoint belongs to the lower half.
    pub open spec fn bit_for(self, x: int) -> u8 {
        if x > self.midpoint() {
            1
        } else {
            0
        }
    }

    /// The half that a bit selects: the upper half for 1, the lower half for any
    /// other value.
    pub open spec fn refine(self, bit: u8) -> Span {
        if bit == 1 {
            Span { low: self.midpoint(), high: self.high }
        } else {
            Span { low: self.low, high: self.midpoint() }
        }
    }
}

/// A rectangle of the grid, with the axis that the next bit halves. Bits
/// alternate between the axes, longitude first.
pub struct Cell {
    pub lat: Span,
    pub lng: Span,
    pub lng_turn: bool,
}

/// The cell that no bit has narrowed yet.
pub open spec fn whole_earth() -> Cell {
    Cell {
        lat: Span { low: -LAT_LIMIT, high: LAT_LIMIT as int },
        lng: Span { low: -LNG_LIMIT, high: LNG_LIMIT as int },
        lng_turn: true,
    }
}

impl Cell {
    /// The bit that bisection emits next for the point `(lat, lng)`.
    pub open spec fn bit_for(self, lat: int, lng: int) -> u8 {
        if self.lng_turn {
            self.lng.bit_for(lng)
        } else {
            self.lat.bit_for(lat)
        }
    }

    /// The cell after one more bit, which halves the axis whose turn it is.
    pub open spec fn refine(self, bit: u8) -> Cell {
        if self.lng_turn {
            Cell { lat: self.lat, lng: self.lng.refine(bit), lng_turn: false }
        } else {
            Cell { lat: self.lat.refine(bit), lng: self.lng, lng_turn: true }
        }
    }

    /// The cell after the five bits of a symbol's value, most significant first.
    pub open spec fn refine_by_symbol(self, value: int) -> Cell {
        self.refine(symbol_bit(value, 0)).refine(symbol_bit(value, 1)).refine(
            symbol_bit(value, 2),
        ).refine(symbol_bit(value, 3)).refine(symbol_bit(value, 4))
    }

    /// The centre of the cell, latitude first.
    pub open spec fn center(self) -> (int, int) {
        (self.lat.midpoint(), self.lng.midpoint())
    }
}

/// Bit `i` of a symbol's value, counted from the most significant of its five.
pub open spec fn symbol_bit(value: int, i: int) -> u8 {
    five_digits(value as nat)[i]
}

/// The cell of the point `(lat, lng)` after `depth` bits of bisection.
pub open spec fn cell_at(lat: int, lng: int, depth: nat) -> Cell
    decreases depth,
{
    if depth == 0 {
        whole_earth()
    } else {
        let parent = cell_at(lat, lng, (depth - 1) as nat);
        parent.refine(parent.bit_for(lat, lng))
    }
}

/// Bit `i` of the interleaved stream of the point `(lat, lng)`.
pub open spec fn stream_bit(lat: int, lng: int, i: nat) -> u8 {
    cell_at(lat, lng, i).bit_for(lat, lng)
}

/// The value of symbol `k` of the point's geohash: five bits of the stream, the
/// first of them the most significant.
pub open spec fn symbol_value(lat: int, lng: int, k: nat) -> int {
    16 * stream_bit(lat, lng, 5 * k) + 8 * stream_bit(lat, lng, 5 * k + 1) + 4 * stream_bit(
        lat,
        lng,
        5 * k + 2,
    ) + 2 * stream_bit(lat, lng, 5 * k + 3) + stream_bit(lat, lng, 5 * k + 4)
}

/// The geohash of the point `(lat, lng)` with `precision` symbols.
pub open spec fn geohash(lat: int, lng: int, precision: nat) -> Seq<char> {
    Seq::new(precision, |k: int| alphabet()[symbol_value(lat, lng, k as nat)])
}

/// Whether every character of `text` is a symbol of the alphabet.
pub open spec fn is_geohash(text: Seq<char>) -> bool {
    forall|i: int| 0 <= i < text.len() ==> alphabet().contains(#[trigger] text[i])
}

/// The cell that a sequence of symbol values names.
pub open spec fn cell_of(values: Seq<int>) -> Cell
    decreases values.len(),
{
    if values.len() == 0 {
        whole_earth()
    } else {
        cell_of(values.drop_last()).refine_by_symbol(values.last())
    }
}

/// The values of the symbols of `text`, in order.
pub open spec fn symbol_values(text: Seq<char>) -> Seq<int> {
    Seq::new(text.len(), |i: int| value_of(text[i]))
}

/// The point that a geohash decodes to: the centre of the cell it names, latitude
/// first. The empty geohash names the whole earth, whose centre is `(0, 0)`.
pub open spec fn decoded(text: Seq<char>) -> (int, int) {
    cell_of(symbol_values(text)).center()
}

} // verus!
