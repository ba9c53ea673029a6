//! Angles in fixed point.

use vstd::prelude::*;
use vstd::bits::lemma_u64_shl_is_mul;
use vstd::arithmetic::power2::{
    lemma2_to64, lemma2_to64_rest, lemma_pow2_pos, lemma_pow2_strictly_increases, pow2,
};
use crate::binary64::{
    angle_of, denotes, exponent_of, lemma_large_magnitude, lemma_normalise_step,
    lemma_scaled_division, lemma_small_significand, lemma_zero_denotes_zero, magnitude_of,
    scale_of, significand_of, unit, HIDDEN_BIT, SIGN_BIT,
};
use crate::grid::LNG_LIMIT;

verus! {

/// An angle between -180 and 180 degrees as a whole number of units of 2^-45 of
/// a degree.
#[derive(Clone, Copy, Debug, PartialEq, Eq, Structural)]
pub struct Angle {
    units: i64,
}

impl View for Angle {
    type V = int;

    closed spec fn view(&self) -> int {
        self.units as int
    }
}

impl Angle {
    #[verifier::type_invariant]
    spec fn in_range(self) -> bool {
        -LNG_LIMIT <= self.units <= LNG_LIMIT
    }

    /// The angle of `units` units, if that lies between -180 and 180 degrees.
    pub fn from_units(units: i64) -> (angle: Option<Angle>)
        ensures
            match angle {
                Some(a) => a@ == units && -LNG_LIMIT <= units <= LNG_LIMIT,
                None => units < -LNG_LIMIT || units > LNG_LIMIT,
            },
    {
        if -LNG_LIMIT <= units && units <= LNG_LIMIT {
            Some(Angle { units })
        } else {
            None
        }
    }

    /// Reads an angle from the bit pattern of a binary64 number of degrees.
    ///
    /// The number is rounded up to the next whole unit and then limited to the
    /// range from -180 to 180 degrees. Rounding up keeps every comparison "is the
    /// number greater than this whole number of units" as it is, so the angle
    /// falls into the same cells as the number itself. The infinities are read as
    /// the bound on their side, and a NaN, which is greater than nothing, as -180
    /// degrees.
    pub fn from_binary64(bits: u64) -> (angle: Angle)
        ensures
            angle@ == angle_of(bits),
    {
        let negative = bits >= SIGN_BIT;
        let exponent: u64 = bits / HIDDEN_BIT % 2048;
        let fraction: u64 = bits % HIDDEN_BIT;
        if exponent == 2047 {
            if fraction != 0 || negative {
                return Angle { units: -LNG_LIMIT };
            } else {
                return Angle { units: LNG_LIMIT };
            }
        }
        if exponent > 1030 {
            proof {
                lemma_large_magnitude(bits);
            }
            if negative {
                return Angle { units: -LNG_LIMIT };
            } else {
                return Angle { units: LNG_LIMIT };
            }
        }
        let significand: u64 = if exponent == 0 {
            fraction
        } else {
            HIDDEN_BIT + fraction
        };
        let scale: u64 = if exponent == 0 {
            0
        } else {
            exponent - 1
        };
        let shift: u64 = 1029 - scale;
        let whole: u64;
        let exact: bool;
        if shift >= 53 {
            proof {
                lemma_small_significand(significand as nat, shift as nat);
            }
            whole = 0;
            exact = significand == 0;
        } else {
            proof {
                lemma2_to64_rest();
                lemma_pow2_pos(shift as nat);
                if shift < 52 {
                    lemma_pow2_strictly_increases(shift as nat, 52);
                }
                lemma_u64_shl_is_mul(1, shift);
            }
            let divisor: u64 = 1u64 << shift;
            whole = significand / divisor;
            exact = significand % divisor == 0;
        }
        proof {
            lemma_scaled_division(significand as nat, scale as nat, shift as nat);
            assert(significand == significand_of(bits));
            assert(scale == scale_of(bits));
            assert(whole == magnitude_of(bits) / unit());
            assert(exact == (magnitude_of(bits) % unit() == 0));
        }
        let units: i64 = if negative {
            -(whole as i64)
        } else if exact {
            whole as i64
        } else {
            whole as i64 + 1
        };
        if units > LNG_LIMIT {
            Angle { units: LNG_LIMIT }
        } else if units < -LNG_LIMIT {
            Angle { units: -LNG_LIMIT }
        } else {
            Angle { units }
        }
    }

    /// Writes the angle as the bit pattern of the binary64 number of degrees that
    /// equals it. Every angle has one: its magnitude is below 2^53 units, so it
    /// fits the 53 bits of a significand with nothing rounded.
    pub fn to_binary64(&self) -> (bits: u64)
        ensures
            denotes(bits, self@),
    {
        proof {
            use_type_invariant(self);
        }
        let units: i64 = self.units;
        if units == 0 {
            proof {
                lemma_zero_denotes_zero();
            }
            return 0;
        }
        let negative = units < 0;
        let mut significand: u64 = if negative {
            (-units) as u64
        } else {
            units as u64
        };
        let mut exponent: u64 = 1030;
        let ghost magnitude = significand as nat;
        proof {
            lemma2_to64();
        }
        while significand < HIDDEN_BIT
            invariant
                0 < significand < 2 * HIDDEN_BIT,
                1 <= exponent <= 1030,
                significand >= pow2((1030 - exponent) as nat),
                significand * pow2((exponent - 1) as nat) == magnitude * unit(),
            decreases exponent,
        {
            proof {
                lemma_normalise_step(significand as nat, exponent as nat);
            }
            significand = significand * 2;
            exponent = exponent - 1;
        }
        let fields: u64 = exponent * HIDDEN_BIT + (significand - HIDDEN_BIT);
        let bits: u64 = if negative {
            SIGN_BIT + fields
        } else {
            fields
        };
        proof {
            assert(exponent_of(bits) == exponent);
            assert(significand_of(bits) == significand);
            assert(scale_of(bits) == exponent - 1);
            assert(magnitude_of(bits) == magnitude * unit());
        }
        bits
    }

    /// The number of units.
    pub fn units(&self) -> (units: i64)
        ensures
            units == self@,
            -LNG_LIMIT <= units <= LNG_LIMIT,
    {
        proof {
            use_type_invariant(self);
        }
        self.units
    }
}

} // verus!
