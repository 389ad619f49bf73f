//! Binary64 numbers, held as bit patterns and computed on with integers.
//!
//! A finite number is described by its *units*: its exact value as a multiple
//! of 2^-1074, the smallest positive binary64 number. Every finite binary64
//! number is a whole number of units, so contracts speak of plain integers.
use vstd::arithmetic::power2::{
    lemma2_to64, lemma_pow2_adds, lemma_pow2_pos, lemma_pow2_strictly_increases, pow2,
};
use vstd::prelude::*;

verus! {

/// 2^52: how many magnitudes share one exponent.
pub const BINADE: u64 = 0x10_0000_0000_0000;

/// The magnitude of infinity. Smaller magnitudes are finite, larger ones NaN.
pub const INFINITE: u64 = 0x7ff0_0000_0000_0000;

/// The sign bit.
pub const SIGN: u64 = 0x8000_0000_0000_0000;

/// The bit pattern of NaN.
pub const NAN_BITS: u64 = 0x7ff8_0000_0000_0000;

/// The bit pattern of 1.
pub const ONE_BITS: u64 = 0x3ff0_0000_0000_0000;

/// A binary64 number, by its bit pattern.
#[derive(Clone, Copy, Debug, PartialEq, Eq, Structural)]
pub struct Double {
    pub bits: u64,
}

/// The integer that stands before the power of two in the value of a magnitude.
pub open spec fn significand(m: nat) -> nat {
    if m < BINADE {
        m
    } else {
        BINADE as nat + m % (BINADE as nat)
    }
}

/// The exponent of that power of two, counted in units.
pub open spec fn scale(m: nat) -> nat {
    if m < BINADE {
        0
    } else {
        (m / (BINADE as nat) - 1) as nat
    }
}

/// The value of a magnitude, in units of 2^-1074.
pub open spec fn units_of(m: nat) -> nat {
    significand(m) * pow2(scale(m))
}

/// `n` seconds, in units of 2^-1074.
pub open spec fn whole(n: nat) -> nat {
    n * pow2(1074)
}

impl Double {
    /// The bit pattern without its sign.
    pub open spec fn magnitude(self) -> nat {
        (self.bits % SIGN) as nat
    }

    pub open spec fn is_negative(self) -> bool {
        self.bits >= SIGN
    }

    pub open spec fn finite(self) -> bool {
        self.magnitude() < INFINITE
    }

    pub open spec fn nan(self) -> bool {
        self.magnitude() > INFINITE
    }

    /// The exact value in units of 2^-1074. An infinity counts as larger than
    /// every finite number; for a NaN the result means nothing.
    pub open spec fn units(self) -> int {
        if self.is_negative() {
            -(units_of(self.magnitude()) as int)
        } else {
            units_of(self.magnitude()) as int
        }
    }

    /// The order of numbers; false when either side is NaN.
    pub open spec fn at_most(self, other: Double) -> bool {
        !self.nan() && !other.nan() && self.units() <= other.units()
    }

    pub open spec fn spec_zero() -> Double {
        Double { bits: 0 }
    }

    /// Zero, with a plus sign.
    #[verifier::when_used_as_spec(spec_zero)]
    pub fn zero() -> (r: Double)
        ensures
            r == Double::zero(),
    {
        Double { bits: 0 }
    }

    fn get_magnitude(&self) -> (r: u64)
        ensures
            r == self.magnitude(),
    {
        self.bits % SIGN
    }

    /// Neither infinite nor NaN.
    pub fn is_finite(&self) -> (r: bool)
        ensures
            r == self.finite(),
    {
        self.get_magnitude() < INFINITE
    }

    /// The comparison `self <= other`.
    pub fn le(&self, other: &Double) -> (r: bool)
        ensures
            r == self.at_most(*other),
    {
        let a: u64 = self.get_magnitude();
        let b: u64 = other.get_magnitude();
        proof {
            lemma_units_zero();
            lemma_units_order(a as nat, b as nat);
            lemma_units_order(b as nat, a as nat);
            lemma_units_order(0, a as nat);
            lemma_units_order(0, b as nat);
        }
        if a > INFINITE || b > INFINITE {
            false
        } else if self.bits >= SIGN {
            if other.bits >= SIGN {
                b <= a
            } else {
                true
            }
        } else if other.bits >= SIGN {
            a == 0 && b == 0
        } else {
            a <= b
        }
    }
}

/// Zero is zero units.
pub proof fn lemma_units_zero()
    ensures
        units_of(0) == 0,
{
    assert(0 * pow2(0) == 0);
}

/// Larger magnitudes are larger numbers.
pub proof fn lemma_units_order(a: nat, b: nat)
    ensures
        a < b ==> units_of(a) < units_of(b),
        a == b ==> units_of(a) == units_of(b),
{
    if a < b {
        let sa = significand(a);
        let sb = significand(b);
        let ka = scale(a);
        let kb = scale(b);
        lemma_pow2_pos(ka);
        lemma_pow2_pos(kb);
        if ka == kb {
            assert(sa < sb);
            assert(sa * pow2(ka) < sb * pow2(ka)) by (nonlinear_arith)
                requires
                    sa < sb,
                    pow2(ka) > 0,
            ;
        } else {
            assert(ka < kb);
            let d = (kb - ka) as nat;
            lemma_pow2_adds(ka, d);
            lemma_pow2_strictly_increases(0, d);
            lemma2_to64();
            let p = pow2(ka);
            let g = pow2(d);
            assert(g >= 2);
            assert(sa * p < sb * (p * g)) by (nonlinear_arith)
                requires
                    sa < 2 * BINADE,
                    sb >= BINADE,
                    g >= 2,
                    p > 0,
            ;
        }
    }
}

} // verus!
