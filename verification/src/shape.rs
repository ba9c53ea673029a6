//! The size and position of cells: which cells have the exact size of their
//! depth, which hold a point, and how halving keeps both.

use vstd::prelude::*;
use vstd::arithmetic::mul::lemma_mul_inequality;
use vstd::arithmetic::power2::{
    lemma2_to64, lemma2_to64_rest, lemma_pow2_adds, lemma_pow2_pos, lemma_pow2_unfold, pow2,
};
use crate::grid::{
    cell_at, cell_of, symbol_bit, whole_earth, Cell, LAT_LIMIT, LNG_LIMIT, MAX_PRECISION,
};

verus! {

/// The number of times the latitude has been halved after `depth` bits.
pub open spec fn lat_halvings(depth: nat) -> nat {
    depth / 2
}

/// The number of times the longitude has been halved after `depth` bits.
pub open spec fn lng_halvings(depth: nat) -> nat {
    (depth + 1) / 2
}

/// Whether a cell has the size of the cells at `depth`: the full range of each
/// axis divided by two as often as that axis has been halved, with nothing
/// rounded.
pub open spec fn exact_at(cell: Cell, depth: nat) -> bool {
    &&& cell.lng_turn == (depth % 2 == 0)
    &&& (cell.lat.high - cell.lat.low) * pow2(lat_halvings(depth)) == 2 * LAT_LIMIT
    &&& (cell.lng.high - cell.lng.low) * pow2(lng_halvings(depth)) == 2 * LNG_LIMIT
    &&& (cell.lat.high - cell.lat.low) % 2 == 0
    &&& (cell.lng.high - cell.lng.low) % 2 == 0
}

/// Whether a cell holds the point `(lat, lng)`, bounds included.
pub open spec fn holds(cell: Cell, lat: int, lng: int) -> bool {
    &&& cell.lat.low <= lat <= cell.lat.high
    &&& cell.lng.low <= lng <= cell.lng.high
}

/// Whether neither range of a cell reaches beyond the full range of its axis.
pub open spec fn within_earth(cell: Cell) -> bool {
    &&& -LAT_LIMIT <= cell.lat.low <= cell.lat.high <= LAT_LIMIT
    &&& -LNG_LIMIT <= cell.lng.low <= cell.lng.high <= LNG_LIMIT
}

/// Whether the ranges of `inner` lie within those of `outer`.
pub open spec fn contained(inner: Cell, outer: Cell) -> bool {
    &&& outer.lat.low <= inner.lat.low && inner.lat.high <= outer.lat.high
    &&& outer.lng.low <= inner.lng.low && inner.lng.high <= outer.lng.high
}

/// The whole earth has the size of depth zero.
pub proof fn lemma_whole_earth_exact()
    ensures
        exact_at(whole_earth(), 0),
{
    lemma2_to64();
    assert(lat_halvings(0) == 0 && lng_halvings(0) == 0);
    assert(pow2(0) == 1);
    let cell = whole_earth();
    assert((cell.lat.high - cell.lat.low) * 1 == 2 * LAT_LIMIT);
    assert((cell.lng.high - cell.lng.low) * 1 == 2 * LNG_LIMIT);
}

/// Halving a range whose width is the full width divided by `2^h` gives two
/// ranges of half that width, which is again even while `h < 45`.
proof fn lemma_halve(low: int, high: int, limit: int, h: nat)
    requires
        limit == LAT_LIMIT || limit == LNG_LIMIT,
        (high - low) * pow2(h) == 2 * limit,
        h < 45,
    ensures
        (high - low) % 2 == 0,
        (high - (low + high) / 2) * pow2(h + 1) == 2 * limit,
        ((low + high) / 2 - low) * pow2(h + 1) == 2 * limit,
        ((high - low) / 2) % 2 == 0,
{
    let w = high - low;
    let rest = (45 - h) as nat;
    lemma2_to64_rest();
    lemma_pow2_adds(h, rest);
    lemma_pow2_pos(h);
    lemma_pow2_unfold(rest);
    lemma_pow2_unfold(h + 1);
    let unit: int = if limit == LAT_LIMIT { 180 } else { 360 };
    assert(2 * limit == unit * pow2(45));
    // the width is `unit * 2^(45 - h)`
    assert(w == unit * pow2(rest)) by (nonlinear_arith)
        requires
            w * pow2(h) == unit * pow2(45),
            pow2(45) == pow2(h) * pow2(rest),
            pow2(h) > 0,
    ;
    let half = unit * pow2((rest - 1) as nat);
    assert(w == 2 * half) by (nonlinear_arith)
        requires
            w == unit * pow2(rest),
            pow2(rest) == 2 * pow2((rest - 1) as nat),
            half == unit * pow2((rest - 1) as nat),
    ;
    assert(half * pow2(h + 1) == 2 * limit) by (nonlinear_arith)
        requires
            w * pow2(h) == 2 * limit,
            w == 2 * half,
            pow2(h + 1) == 2 * pow2(h),
    ;
    assert(unit % 2 == 0);
    assert(half % 2 == 0) by (nonlinear_arith)
        requires
            half == unit * pow2((rest - 1) as nat),
            unit == 180 || unit == 360,
    ;
}

/// Halving a cell of exact size gives a cell of exact size, as long as the axis
/// has been halved fewer than 45 times.
pub proof fn lemma_refine_exact(cell: Cell, depth: nat, bit: u8)
    requires
        exact_at(cell, depth),
        depth < 90,
    ensures
        exact_at(cell.refine(bit), depth + 1),
{
    let refined = cell.refine(bit);
    if cell.lng_turn {
        let h = lng_halvings(depth);
        assert(lng_halvings(depth + 1) == h + 1);
        assert(lat_halvings(depth + 1) == lat_halvings(depth));
        lemma_halve(cell.lng.low, cell.lng.high, LNG_LIMIT as int, h);
    } else {
        let h = lat_halvings(depth);
        assert(lat_halvings(depth + 1) == h + 1);
        assert(lng_halvings(depth + 1) == lng_halvings(depth));
        lemma_halve(cell.lat.low, cell.lat.high, LAT_LIMIT as int, h);
    }
}

/// Halving keeps a cell within the earth.
pub proof fn lemma_refine_within(cell: Cell, bit: u8)
    requires
        within_earth(cell),
    ensures
        within_earth(cell.refine(bit)),
{
}

/// The cell of a point at a depth of at most 90 bits has the exact size of that
/// depth, and it holds the point if the point lies within the full ranges.
pub proof fn lemma_cell_at_exact(lat: int, lng: int, depth: nat)
    requires
        depth <= 90,
    ensures
        exact_at(cell_at(lat, lng, depth), depth),
        holds(whole_earth(), lat, lng) ==> holds(cell_at(lat, lng, depth), lat, lng),
    decreases depth,
{
    if depth == 0 {
        lemma_whole_earth_exact();
    } else {
        let parent = cell_at(lat, lng, (depth - 1) as nat);
        lemma_cell_at_exact(lat, lng, (depth - 1) as nat);
        lemma_refine_exact(parent, (depth - 1) as nat, parent.bit_for(lat, lng));
    }
}

/// The cell that at most 18 symbol values name has the exact size of its depth,
/// whatever the values are.
pub proof fn lemma_cell_of_exact(values: Seq<int>)
    requires
        values.len() <= MAX_PRECISION,
    ensures
        exact_at(cell_of(values), 5 * values.len()),
    decreases values.len(),
{
    if values.len() == 0 {
        lemma_whole_earth_exact();
    } else {
        let rest = values.drop_last();
        let v = values.last();
        let depth = 5 * rest.len();
        lemma_cell_of_exact(rest);
        let c0 = cell_of(rest);
        let c1 = c0.refine(symbol_bit(v, 0));
        let c2 = c1.refine(symbol_bit(v, 1));
        let c3 = c2.refine(symbol_bit(v, 2));
        let c4 = c3.refine(symbol_bit(v, 3));
        lemma_refine_exact(c0, depth, symbol_bit(v, 0));
        lemma_refine_exact(c1, depth + 1, symbol_bit(v, 1));
        lemma_refine_exact(c2, depth + 2, symbol_bit(v, 2));
        lemma_refine_exact(c3, depth + 3, symbol_bit(v, 3));
        lemma_refine_exact(c4, depth + 4, symbol_bit(v, 4));
    }
}

/// The centre of a range of even width is at most half the width away from any
/// angle in the range; scaled by the number of halvings, at most half the full
/// width.
pub proof fn lemma_center_distance(low: int, high: int, x: int, limit: int, h: nat)
    requires
        low <= x <= high,
        (high - low) % 2 == 0,
        (high - low) * pow2(h) == 2 * limit,
    ensures
        -limit <= ((low + high) / 2 - x) * pow2(h) <= limit,
{
    let half = (high - low) / 2;
    let d = (low + high) / 2 - x;
    let p = pow2(h) as int;
    lemma_pow2_pos(h);
    assert(-half <= d <= half);
    assert(half * p == limit) by (nonlinear_arith)
        requires
            (high - low) * p == 2 * limit,
            high - low == 2 * half,
    ;
    lemma_mul_inequality(d, half, p);
    lemma_mul_inequality(-half, d, p);
    assert((-half) * p == -(half * p)) by (nonlinear_arith);
}

} // verus!
