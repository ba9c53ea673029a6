//! The range of angles that bisection keeps for one axis.

use vstd::prelude::*;
use crate::grid::{whole_earth, Cell, Span, LAT_LIMIT, LNG_LIMIT};

verus! {

/// The known bounds of one coordinate, in units. Bisection starts from the full
/// range of the axis and halves it with every bit.
#[derive(Clone, Copy, Debug, PartialEq, Eq, Structural)]
pub struct Interval {
    pub low: i64,
    pub high: i64,
}

impl View for Interval {
    type V = Span;

    open spec fn view(&self) -> Span {
        Span { low: self.low as int, high: self.high as int }
    }
}

impl Interval {
    /// The bounds are in order.
    pub open spec fn wf(&self) -> bool {
        self.low <= self.high
    }

    /// The full range of latitudes, from -90 to 90 degrees.
    pub fn latitude() -> (interval: Interval)
        ensures
            interval.wf(),
            interval@ == (Span { low: -LAT_LIMIT, high: LAT_LIMIT as int }),
    {
        Interval { low: -LAT_LIMIT, high: LAT_LIMIT }
    }

    /// The full range of longitudes, from -180 to 180 degrees.
    pub fn longitude() -> (interval: Interval)
        ensures
            interval.wf(),
            interval@ == (Span { low: -LNG_LIMIT, high: LNG_LIMIT as int }),
    {
        Interval { low: -LNG_LIMIT, high: LNG_LIMIT }
    }

    /// The angle halfway between the bounds.
    pub fn midpoint(&self) -> (mid: i64)
        requires
            self.wf(),
        ensures
            mid == self@.midpoint(),
            self.low <= mid <= self.high,
    {
        let width: i128 = self.high as i128 - self.low as i128;
        (self.low as i128 + width / 2) as i64
    }
}

/// Halves an interval: a bit of 1 keeps the upper half, any other bit the lower
/// half.
pub fn refine_interval(interval: Interval, bit: u8) -> (refined: Interval)
    requires
        interval.wf(),
    ensures
        refined.wf(),
        refined@ == interval@.refine(bit),
{
    let mid: i64 = interval.midpoint();
    if bit == 1 {
        Interval { low: mid, high: interval.high }
    } else {
        Interval { low: interval.low, high: mid }
    }
}

/// The state of a bisection in progress: the interval of each axis and the axis
/// whose turn it is.
#[derive(Clone, Copy, Debug, PartialEq, Eq, Structural)]
pub struct Bisection {
    pub lat: Interval,
    pub lng: Interval,
    pub lng_turn: bool,
}

impl View for Bisection {
    type V = Cell;

    open spec fn view(&self) -> Cell {
        Cell { lat: self.lat@, lng: self.lng@, lng_turn: self.lng_turn }
    }
}

impl Bisection {
    /// Both intervals have their bounds in order.
    pub open spec fn wf(&self) -> bool {
        self.lat.wf() && self.lng.wf()
    }

    /// Neither interval reaches beyond the full range of its axis.
    pub open spec fn within_limits(&self) -> bool {
        &&& -LAT_LIMIT <= self.lat.low && self.lat.high <= LAT_LIMIT
        &&& -LNG_LIMIT <= self.lng.low && self.lng.high <= LNG_LIMIT
    }

    /// The state before any bit: both axes at their full range, longitude first.
    pub fn start() -> (state: Bisection)
        ensures
            state.wf(),
            state.within_limits(),
            state@ == whole_earth(),
    {
        Bisection { lat: Interval::latitude(), lng: Interval::longitude(), lng_turn: true }
    }

    /// The next bit for the point `(lat, lng)`: whether the coordinate whose turn
    /// it is lies strictly above the midpoint of its interval.
    pub fn bit_for(&self, lat: i64, lng: i64) -> (bit: u8)
        requires
            self.wf(),
        ensures
            bit == self@.bit_for(lat as int, lng as int),
    {
        let above = if self.lng_turn {
            lng > self.lng.midpoint()
        } else {
            lat > self.lat.midpoint()
        };
        if above {
            1
        } else {
            0
        }
    }

    /// The state after one more bit: the interval whose turn it is is halved, and
    /// the turn passes to the other axis.
    pub fn refine(self, bit: u8) -> (refined: Bisection)
        requires
            self.wf(),
        ensures
            refined.wf(),
            refined@ == self@.refine(bit),
            self.within_limits() ==> refined.within_limits(),
    {
        if self.lng_turn {
            Bisection { lat: self.lat, lng: refine_interval(self.lng, bit), lng_turn: false }
        } else {
            Bisection { lat: refine_interval(self.lat, bit), lng: self.lng, lng_turn: true }
        }
    }
}

} // verus!
