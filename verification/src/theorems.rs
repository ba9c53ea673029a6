//! What holds of the geohash of every point and of the centre of every geohash.

use vstd::prelude::*;
use vstd::arithmetic::power2::{lemma_pow2_pos, pow2};
use crate::alphabet::{alphabet, is_symbol, lemma_value_of, value_of};
use crate::angle::Angle;
use crate::binary64::{
    angle_of, exceeds, is_finite, scaled_of, theorem_reading_keeps_order, unit,
};
use crate::decode::is_decoding;
use crate::encode::is_encoding;
use crate::error::GeohashError;
use crate::grid::{
    cell_at, cell_of, decoded, geohash, is_geohash, stream_bit, symbol_bit, symbol_value,
    symbol_values, whole_earth, Cell, Span, LAT_LIMIT, LNG_LIMIT, MAX_PRECISION,
};
use crate::shape::{
    contained, holds, lat_halvings, lemma_cell_at_exact, lemma_cell_of_exact, lemma_center_distance,
    lemma_refine_within, lng_halvings, within_earth,
};

verus! {

/// Every symbol stands for one value and every value for one symbol: looking up
/// the value of the symbol of `v` gives `v` back, and the symbol of the value of
/// a symbol is that symbol.
pub proof fn theorem_alphabet_bijection()
    ensures
        forall|v: int| 0 <= v < 32 ==> is_symbol(#[trigger] alphabet()[v]) && value_of(alphabet()[v]) == v,
        forall|c: char| #[trigger] is_symbol(c) ==> 0 <= value_of(c) < 32 && alphabet()[value_of(c)] == c,
{
    assert forall|v: int| 0 <= v < 32 implies is_symbol(#[trigger] alphabet()[v]) && value_of(
        alphabet()[v],
    ) == v by {
        lemma_value_of(alphabet()[v], v);
    }
    assert forall|c: char| #[trigger] is_symbol(c) implies 0 <= value_of(c) < 32
        && alphabet()[value_of(c)] == c by {
        let i = choose|i: int| 0 <= i < alphabet().len() && alphabet()[i] == c;
        lemma_value_of(c, i);
    }
}

/// A geohash of a point is the beginning of every longer geohash of the same
/// point: more symbols refine the cell and leave the earlier symbols as they are.
pub proof fn theorem_precision_extends(lat: int, lng: int, shorter: nat, longer: nat)
    requires
        shorter <= longer,
    ensures
        geohash(lat, lng, shorter) == geohash(lat, lng, longer).take(shorter as int),
        geohash(lat, lng, shorter).is_prefix_of(geohash(lat, lng, longer)),
{
    assert(geohash(lat, lng, shorter) =~= geohash(lat, lng, longer).take(shorter as int));
}

/// Bits are zero or one, so a symbol value lies below 32.
pub proof fn lemma_symbol_value_range(lat: int, lng: int, k: nat)
    ensures
        0 <= symbol_value(lat, lng, k) < 32,
        is_symbol(alphabet()[symbol_value(lat, lng, k)]),
        value_of(alphabet()[symbol_value(lat, lng, k)]) == symbol_value(lat, lng, k),
{
    lemma_value_of(alphabet()[symbol_value(lat, lng, k)], symbol_value(lat, lng, k));
}

/// Five bits packed into a value, the first the most significant, are the five
/// binary digits of that value.
proof fn lemma_five_bits(b0: u8, b1: u8, b2: u8, b3: u8, b4: u8)
    requires
        b0 <= 1,
        b1 <= 1,
        b2 <= 1,
        b3 <= 1,
        b4 <= 1,
    ensures
        ({
            let v = 16 * b0 + 8 * b1 + 4 * b2 + 2 * b3 + b4;
            &&& symbol_bit(v, 0) == b0
            &&& symbol_bit(v, 1) == b1
            &&& symbol_bit(v, 2) == b2
            &&& symbol_bit(v, 3) == b3
            &&& symbol_bit(v, 4) == b4
        }),
{
}

/// The five bits of a symbol value are the five bits of the stream it was made
/// of.
proof fn lemma_symbol_bits(lat: int, lng: int, k: nat)
    ensures
        forall|i: int| 0 <= i < 5 ==> symbol_bit(symbol_value(lat, lng, k), i) == stream_bit(lat, lng, (5 * k + i) as nat),
{
    lemma_five_bits(
        stream_bit(lat, lng, 5 * k),
        stream_bit(lat, lng, 5 * k + 1),
        stream_bit(lat, lng, 5 * k + 2),
        stream_bit(lat, lng, 5 * k + 3),
        stream_bit(lat, lng, 5 * k + 4),
    );
}

/// Reading a symbol of a point's geohash moves from the point's cell before the
/// symbol to its cell after it.
proof fn lemma_symbol_step(lat: int, lng: int, k: nat)
    ensures
        cell_at(lat, lng, 5 * k).refine_by_symbol(symbol_value(lat, lng, k)) == cell_at(lat, lng, 5 * k + 5),
{
    lemma_symbol_bits(lat, lng, k);
    reveal_with_fuel(cell_at, 6);
    let v = symbol_value(lat, lng, k);
    let c0 = cell_at(lat, lng, 5 * k);
    assert(symbol_bit(v, 0) == c0.bit_for(lat, lng));
    let c1 = cell_at(lat, lng, 5 * k + 1);
    assert(c1 == c0.refine(symbol_bit(v, 0)));
    assert(symbol_bit(v, 1) == c1.bit_for(lat, lng));
    let c2 = cell_at(lat, lng, 5 * k + 2);
    assert(c2 == c1.refine(symbol_bit(v, 1)));
    assert(symbol_bit(v, 2) == c2.bit_for(lat, lng));
    let c3 = cell_at(lat, lng, 5 * k + 3);
    assert(c3 == c2.refine(symbol_bit(v, 2)));
    assert(symbol_bit(v, 3) == c3.bit_for(lat, lng));
    let c4 = cell_at(lat, lng, 5 * k + 4);
    assert(c4 == c3.refine(symbol_bit(v, 3)));
    assert(symbol_bit(v, 4) == c4.bit_for(lat, lng));
    assert(cell_at(lat, lng, 5 * k + 5) == c4.refine(symbol_bit(v, 4)));
}

/// A point's geohash is made of symbols only, and it names the cell that the
/// bisection of the point arrives at: decoding undoes encoding up to the size of
/// that cell.
pub proof fn theorem_geohash_names_cell(lat: int, lng: int, precision: nat)
    ensures
        is_geohash(geohash(lat, lng, precision)),
        cell_of(symbol_values(geohash(lat, lng, precision))) == cell_at(lat, lng, 5 * precision),
        decoded(geohash(lat, lng, precision)) == cell_at(lat, lng, 5 * precision).center(),
    decreases precision,
{
    let text = geohash(lat, lng, precision);
    let values = symbol_values(text);
    assert forall|i: int| 0 <= i < text.len() implies is_symbol(#[trigger] text[i]) by {
        lemma_symbol_value_range(lat, lng, i as nat);
    }
    if precision > 0 {
        let k = (precision - 1) as nat;
        theorem_geohash_names_cell(lat, lng, k);
        theorem_precision_extends(lat, lng, k, precision);
        lemma_symbol_value_range(lat, lng, k);
        assert(values.drop_last() =~= symbol_values(geohash(lat, lng, k)));
        assert(values.last() == symbol_value(lat, lng, k));
        lemma_symbol_step(lat, lng, k);
    }
}

/// Decoding the geohash of a point gives the point back to within half a cell.
///
/// For a point within the full ranges and a precision `p` of at most
/// `MAX_PRECISION`, the centre that the geohash decodes to differs from the
/// point by no more than 90 degrees divided by `2^(5p / 2)` in latitude, and
/// by no more than 180 degrees divided by `2^((5p + 1) / 2)` in longitude, both
/// divisions of the exponent rounded down.
pub proof fn theorem_round_trip(lat: int, lng: int, precision: nat)
    requires
        -LAT_LIMIT <= lat <= LAT_LIMIT,
        -LNG_LIMIT <= lng <= LNG_LIMIT,
        precision <= MAX_PRECISION,
    ensures
        is_geohash(geohash(lat, lng, precision)),
        ({
            let (center_lat, center_lng) = decoded(geohash(lat, lng, precision));
            &&& -LAT_LIMIT <= (center_lat - lat) * pow2(lat_halvings(5 * precision)) <= LAT_LIMIT
            &&& -LNG_LIMIT <= (center_lng - lng) * pow2(lng_halvings(5 * precision)) <= LNG_LIMIT
        }),
{
    let depth = 5 * precision;
    let cell = cell_at(lat, lng, depth);
    theorem_geohash_names_cell(lat, lng, precision);
    lemma_cell_at_exact(lat, lng, depth);
    lemma_center_distance(cell.lat.low, cell.lat.high, lat, LAT_LIMIT as int, lat_halvings(depth));
    lemma_center_distance(cell.lng.low, cell.lng.high, lng, LNG_LIMIT as int, lng_halvings(depth));
}

/// Bit `i` of the stream that a sequence of symbol values spells.
pub open spec fn spelled_bit(values: Seq<int>, i: nat) -> u8 {
    symbol_bit(values[i as int / 5], i as int % 5)
}

/// The cell after the first `depth` bits that a sequence of symbol values
/// spells.
pub open spec fn spelled_cell(values: Seq<int>, depth: nat) -> Cell
    decreases depth,
{
    if depth == 0 {
        whole_earth()
    } else {
        spelled_cell(values, (depth - 1) as nat).refine(spelled_bit(values, (depth - 1) as nat))
    }
}

/// Bit `5j + i` of the spelled stream is bit `i` of value `j`.
proof fn lemma_spelled_bit(values: Seq<int>, j: nat, i: nat)
    requires
        i < 5,
    ensures
        spelled_bit(values, 5 * j + i) == symbol_bit(values[j as int], i as int),
{
    assert((5 * j + i) as int / 5 == j);
    assert((5 * j + i) as int % 5 == i);
}

/// One more bit refines the spelled cell by that bit.
proof fn lemma_spelled_step(values: Seq<int>, depth: nat)
    ensures
        spelled_cell(values, depth + 1) == spelled_cell(values, depth).refine(
            spelled_bit(values, depth),
        ),
{
}

/// After five bits for each of the first `k` values, the spelled cell is the
/// cell that those values name.
proof fn lemma_spelled_symbols(values: Seq<int>, k: nat)
    requires
        k <= values.len(),
    ensures
        spelled_cell(values, 5 * k) == cell_of(values.take(k as int)),
    decreases k,
{
    if k > 0 {
        let j = (k - 1) as nat;
        lemma_spelled_symbols(values, j);
        let taken = values.take(k as int);
        assert(taken.drop_last() =~= values.take(j as int));
        assert(taken.last() == values[j as int]);
        let v = values[j as int];
        let c0 = spelled_cell(values, 5 * j);
        lemma_spelled_bit(values, j, 0);
        lemma_spelled_bit(values, j, 1);
        lemma_spelled_bit(values, j, 2);
        lemma_spelled_bit(values, j, 3);
        lemma_spelled_bit(values, j, 4);
        lemma_spelled_step(values, 5 * j);
        lemma_spelled_step(values, 5 * j + 1);
        lemma_spelled_step(values, 5 * j + 2);
        lemma_spelled_step(values, 5 * j + 3);
        lemma_spelled_step(values, 5 * j + 4);
        assert(spelled_cell(values, 5 * j + 5) == c0.refine_by_symbol(v));
        assert(cell_of(taken) == cell_of(taken.drop_last()).refine_by_symbol(taken.last()));
    }
}

/// Every spelled cell lies within the earth, and within every spelled cell of
/// lesser depth.
proof fn lemma_spelled_nested(values: Seq<int>, outer: nat, inner: nat)
    requires
        outer <= inner,
    ensures
        within_earth(spelled_cell(values, inner)),
        contained(spelled_cell(values, inner), spelled_cell(values, outer)),
    decreases inner,
{
    if inner > 0 {
        let before = (inner - 1) as nat;
        if outer < inner {
            lemma_spelled_nested(values, outer, before);
        } else {
            lemma_spelled_nested(values, before, before);
        }
        lemma_refine_within(spelled_cell(values, before), spelled_bit(values, before));
    }
}

/// The bisection of a point strictly inside a spelled cell follows the bits that
/// spell the cell.
proof fn lemma_inside_follows(values: Seq<int>, total: nat, lat: int, lng: int, depth: nat)
    requires
        depth <= total,
        spelled_cell(values, total).lat.low < lat < spelled_cell(values, total).lat.high,
        spelled_cell(values, total).lng.low < lng < spelled_cell(values, total).lng.high,
    ensures
        cell_at(lat, lng, depth) == spelled_cell(values, depth),
        depth < total ==> stream_bit(lat, lng, depth) == spelled_bit(values, depth),
    decreases depth,
{
    if depth > 0 {
        lemma_inside_follows(values, total, lat, lng, (depth - 1) as nat);
    }
    if depth < total {
        lemma_spelled_nested(values, depth, depth);
        lemma_spelled_nested(values, depth + 1, total);
    }
}

/// More symbols only narrow a cell: the centre that a text decodes to lies in the
/// cell that any beginning of the text names. This holds of texts of every
/// length, also where cells have become too small for their midpoints to be
/// whole numbers of units.
pub proof fn theorem_decoding_narrows(text: Seq<char>, beginning: nat)
    requires
        beginning <= text.len(),
    ensures
        holds(
            cell_of(symbol_values(text.take(beginning as int))),
            decoded(text).0,
            decoded(text).1,
        ),
{
    let values = symbol_values(text);
    assert(symbol_values(text.take(beginning as int)) =~= values.take(beginning as int));
    assert(values.take(text.len() as int) =~= values);
    lemma_spelled_symbols(values, beginning);
    lemma_spelled_symbols(values, text.len());
    lemma_spelled_nested(values, 5 * beginning, 5 * text.len());
}

/// A symbol value is the number that its five bits spell.
proof fn lemma_symbol_bits_make_value(v: int)
    requires
        0 <= v < 32,
    ensures
        16 * symbol_bit(v, 0) + 8 * symbol_bit(v, 1) + 4 * symbol_bit(v, 2) + 2 * symbol_bit(v, 3)
            + symbol_bit(v, 4) == v,
{
}

/// Encoding undoes decoding: a geohash of at most `MAX_PRECISION` symbols is the
/// geohash, at its own length, of the centre that it decodes to.
pub proof fn theorem_center_names_cell(text: Seq<char>)
    requires
        is_geohash(text),
        text.len() <= MAX_PRECISION,
    ensures
        geohash(decoded(text).0, decoded(text).1, text.len()) == text,
{
    let values = symbol_values(text);
    let total = 5 * text.len();
    let (lat, lng) = decoded(text);
    let cell = cell_of(values);
    theorem_alphabet_bijection();
    lemma_spelled_symbols(values, text.len());
    assert(values.take(text.len() as int) =~= values);
    lemma_cell_of_exact(values);
    lemma_spelled_nested(values, total, total);
    lemma_pow2_pos(lat_halvings(total));
    lemma_pow2_pos(lng_halvings(total));
    let lat_width = cell.lat.high - cell.lat.low;
    let lng_width = cell.lng.high - cell.lng.low;
    let lat_p = pow2(lat_halvings(total)) as int;
    let lng_p = pow2(lng_halvings(total)) as int;
    assert(lat_width > 0) by (nonlinear_arith)
        requires
            lat_width * lat_p == 2 * LAT_LIMIT,
            lat_p > 0,
            lat_width >= 0,
    ;
    assert(lng_width > 0) by (nonlinear_arith)
        requires
            lng_width * lng_p == 2 * LNG_LIMIT,
            lng_p > 0,
            lng_width >= 0,
    ;
    let encoded = geohash(lat, lng, text.len());
    assert forall|k: int| 0 <= k < text.len() implies encoded[k] == text[k] by {
        let v = values[k];
        assert(is_symbol(text[k]));
        lemma_inside_follows(values, total, lat, lng, (5 * k) as nat);
        lemma_inside_follows(values, total, lat, lng, (5 * k + 1) as nat);
        lemma_inside_follows(values, total, lat, lng, (5 * k + 2) as nat);
        lemma_inside_follows(values, total, lat, lng, (5 * k + 3) as nat);
        lemma_inside_follows(values, total, lat, lng, (5 * k + 4) as nat);
        lemma_spelled_bit(values, k as nat, 0);
        lemma_spelled_bit(values, k as nat, 1);
        lemma_spelled_bit(values, k as nat, 2);
        lemma_spelled_bit(values, k as nat, 3);
        lemma_spelled_bit(values, k as nat, 4);
        lemma_symbol_bits_make_value(v);
        assert(symbol_value(lat, lng, k as nat) == v);
    }
    assert(encoded =~= text);
}

/// `encode` is a function of its arguments: any two results that it may return
/// for the same point and precision are the same.
pub proof fn theorem_encode_deterministic(
    lat: int,
    lng: int,
    precision: nat,
    first: Result<String, GeohashError>,
    second: Result<String, GeohashError>,
)
    requires
        is_encoding(lat, lng, precision, first),
        is_encoding(lat, lng, precision, second),
    ensures
        match (first, second) {
            (Ok(a), Ok(b)) => a@ == b@,
            (Err(a), Err(b)) => a == b,
            _ => false,
        },
{
}

/// `decode` is a function of its argument: any two results that it may return
/// for the same text are the same.
pub proof fn theorem_decode_deterministic(
    text: Seq<char>,
    first: Result<(Angle, Angle), GeohashError>,
    second: Result<(Angle, Angle), GeohashError>,
)
    requires
        is_decoding(text, first),
        is_decoding(text, second),
    ensures
        match (first, second) {
            (Ok(a), Ok(b)) => a.0@ == b.0@ && a.1@ == b.1@,
            (Err(a), Err(b)) => a == b,
            _ => false,
        },
{
}

/// The bit that bisection emits for a number given by its binary64 pattern: 1
/// if the number is greater than the midpoint.
pub open spec fn number_bit(span: Span, bits: u64) -> u8 {
    if exceeds(bits, span.midpoint()) {
        1
    } else {
        0
    }
}

/// The cell after `depth` bits of the bisection of two numbers given by their
/// binary64 patterns, with nothing rounded.
pub open spec fn number_cell_at(lat: u64, lng: u64, depth: nat) -> Cell
    decreases depth,
{
    if depth == 0 {
        whole_earth()
    } else {
        let parent = number_cell_at(lat, lng, (depth - 1) as nat);
        if parent.lng_turn {
            parent.refine(number_bit(parent.lng, lng))
        } else {
            parent.refine(number_bit(parent.lat, lat))
        }
    }
}

/// Reading coordinates as angles loses nothing that a geohash can tell: down to
/// the 90 bits of 18 symbols, the bisection of the angles arrives at the cells
/// that the bisection of the numbers themselves arrives at.
pub proof fn theorem_angles_share_cells(lat: u64, lng: u64, depth: nat)
    requires
        depth <= 90,
    ensures
        cell_at(angle_of(lat), angle_of(lng), depth) == number_cell_at(lat, lng, depth),
        within_earth(number_cell_at(lat, lng, depth)),
    decreases depth,
{
    if depth > 0 {
        let before = (depth - 1) as nat;
        let parent = number_cell_at(lat, lng, before);
        theorem_angles_share_cells(lat, lng, before);
        lemma_cell_at_exact(angle_of(lat), angle_of(lng), before);
        lemma_pow2_pos(lat_halvings(before));
        lemma_pow2_pos(lng_halvings(before));
        if parent.lng_turn {
            let width = parent.lng.high - parent.lng.low;
            let p = pow2(lng_halvings(before)) as int;
            assert(width > 0) by (nonlinear_arith)
                requires
                    width * p == 2 * LNG_LIMIT,
                    p > 0,
                    width >= 0,
            ;
            theorem_reading_keeps_order(lng, parent.lng.midpoint());
        } else {
            theorem_reading_keeps_order(lat, parent.lat.midpoint());
        }
        lemma_refine_within(parent, parent.bit_for(angle_of(lat), angle_of(lng)));
    }
}

/// Whether a cell holds the numbers that two finite binary64 patterns denote,
/// bounds included.
pub open spec fn holds_numbers(cell: Cell, lat: u64, lng: u64) -> bool {
    &&& cell.lat.low * unit() <= scaled_of(lat) <= cell.lat.high * unit()
    &&& cell.lng.low * unit() <= scaled_of(lng) <= cell.lng.high * unit()
}

/// Bisection keeps two finite numbers in their cell.
proof fn lemma_numbers_stay(lat: u64, lng: u64, depth: nat)
    requires
        is_finite(lat),
        is_finite(lng),
        holds_numbers(whole_earth(), lat, lng),
    ensures
        holds_numbers(number_cell_at(lat, lng, depth), lat, lng),
    decreases depth,
{
    if depth > 0 {
        lemma_numbers_stay(lat, lng, (depth - 1) as nat);
    }
}

/// The centre of a range of even width differs from a number in the range by at
/// most half the width; scaled by the number of halvings, by at most half the
/// full width.
proof fn lemma_center_distance_of_number(low: int, high: int, x: int, limit: int, h: nat)
    requires
        low * unit() <= x <= high * unit(),
        (high - low) % 2 == 0,
        (high - low) * pow2(h) == 2 * limit,
    ensures
        -limit * unit() <= ((low + high) / 2 * unit() - x) * pow2(h) <= limit * unit(),
{
    let half = (high - low) / 2;
    let center = (low + high) / 2;
    let u = unit() as int;
    let p = pow2(h) as int;
    lemma_pow2_pos(h);
    lemma_pow2_pos(1029);
    assert(center == low + half && center == high - half);
    assert(half * p == limit) by (nonlinear_arith)
        requires
            (high - low) * p == 2 * limit,
            high - low == 2 * half,
    ;
    let d = center * u - x;
    assert(-half * u <= d <= half * u) by (nonlinear_arith)
        requires
            d == center * u - x,
            low * u <= x <= high * u,
            center == low + half,
            center == high - half,
    ;
    assert(-limit * u <= d * p <= limit * u) by (nonlinear_arith)
        requires
            -half * u <= d <= half * u,
            half * p == limit,
            p > 0,
            u > 0,
    ;
}

/// Encoding and decoding give a point back to within half a cell, also as
/// measured from the numbers that the coordinates were read from.
///
/// For finite binary64 numbers of degrees within the full ranges and a
/// precision `p` of at most `MAX_PRECISION`, the geohash of the angles that the
/// numbers are read as decodes to a centre that differs from the numbers
/// themselves by no more than 90 degrees divided by `2^(5p / 2)` in latitude and
/// 180 degrees divided by `2^((5p + 1) / 2)` in longitude, both divisions of the
/// exponent rounded down.
pub proof fn theorem_round_trip_of_numbers(lat: u64, lng: u64, precision: nat)
    requires
        is_finite(lat),
        is_finite(lng),
        holds_numbers(whole_earth(), lat, lng),
        precision <= MAX_PRECISION,
    ensures
        ({
            let (center_lat, center_lng) = decoded(
                geohash(angle_of(lat), angle_of(lng), precision),
            );
            &&& -LAT_LIMIT * unit() <= (center_lat * unit() - scaled_of(lat)) * pow2(
                lat_halvings(5 * precision),
            ) <= LAT_LIMIT * unit()
            &&& -LNG_LIMIT * unit() <= (center_lng * unit() - scaled_of(lng)) * pow2(
                lng_halvings(5 * precision),
            ) <= LNG_LIMIT * unit()
        }),
{
    let depth = 5 * precision;
    let cell = cell_at(angle_of(lat), angle_of(lng), depth);
    theorem_geohash_names_cell(angle_of(lat), angle_of(lng), precision);
    theorem_angles_share_cells(lat, lng, depth);
    lemma_cell_at_exact(angle_of(lat), angle_of(lng), depth);
    lemma_numbers_stay(lat, lng, depth);
    lemma_center_distance_of_number(
        cell.lat.low,
        cell.lat.high,
        scaled_of(lat),
        LAT_LIMIT as int,
        lat_halvings(depth),
    );
    lemma_center_distance_of_number(
        cell.lng.low,
        cell.lng.high,
        scaled_of(lng),
        LNG_LIMIT as int,
        lng_halvings(depth),
    );
}

} // verus!
