//! Binary32 numbers: the speed at which a sink plays, and how a binary64
//! number becomes one.
//!
//! Values are counted in the same units as binary64 numbers, of 2^-1074.
use crate::double::{
    lemma_units_order, lemma_units_zero, scale, significand, whole, Double, BINADE, SIGN,
};
use crate::rounding::{distance, lemma_half_step, power};
use vstd::arithmetic::power2::{
    lemma2_to64, lemma2_to64_rest, lemma_pow2_adds, lemma_pow2_pos, lemma_pow2_strictly_increases,
    lemma_pow2_unfold, pow2,
};
use vstd::prelude::*;

verus! {

/// 2^23: how many magnitudes share one exponent.
pub const SINGLE_BINADE: u32 = 0x80_0000;

/// The bit pattern of infinity.
pub const SINGLE_INFINITE: u32 = 0x7f80_0000;

/// The bit pattern of 16, the fastest speed.
pub const FASTEST_BITS: u32 = 0x4180_0000;

/// A binary32 number, by its bit pattern.
#[derive(Clone, Copy, Debug, PartialEq, Eq, Structural)]
pub struct Single {
    pub bits: u32,
}

/// The integer that stands before the power of two in the value of a magnitude.
pub open spec fn single_significand(m: nat) -> nat {
    if m < SINGLE_BINADE {
        m
    } else {
        SINGLE_BINADE as nat + m % (SINGLE_BINADE as nat)
    }
}

/// The exponent of that power of two, counted in units.
pub open spec fn single_scale(m: nat) -> nat {
    if m < SINGLE_BINADE {
        925
    } else {
        (m / (SINGLE_BINADE as nat) + 924) as nat
    }
}

/// The value of a magnitude, in units of 2^-1074. For the magnitude of infinity
/// this is 2^128, the value that the next number after the largest finite one
/// would have.
pub open spec fn single_units(m: nat) -> nat {
    single_significand(m) * pow2(single_scale(m))
}

/// `m` is the magnitude, infinity included, nearest to `n` units; of two that
/// are equally near, the one whose bit pattern is even.
pub open spec fn nearest_single(n: int, m: nat) -> bool {
    &&& m <= SINGLE_INFINITE
    &&& forall|d: nat|
        d <= SINGLE_INFINITE ==> distance(single_units(m) as int, n) <= #[trigger] distance(
            single_units(d) as int,
            n,
        )
    &&& forall|d: nat|
        d <= SINGLE_INFINITE && d != m && distance(single_units(m) as int, n)
            == #[trigger] distance(single_units(d) as int, n) ==> m % 2 == 0
}

/// The binary32 number that a positive binary64 number is rounded to.
pub open spec fn narrowed(x: Double) -> Single {
    choose|r: Single| nearest_single(x.units(), r.bits as nat)
}

impl Single {
    /// A speed at which a sink can play: a finite number above zero and no
    /// greater than 16.
    pub open spec fn valid_speed(self) -> bool {
        self.bits < SINGLE_INFINITE && 0 < single_units(self.bits as nat) <= whole(16)
    }

    /// Whether a sink can play at this speed.
    pub fn is_valid_speed(&self) -> (r: bool)
        ensures
            r == self.valid_speed(),
    {
        proof {
            lemma_fastest();
            lemma_single_order(self.bits as nat, FASTEST_BITS as nat);
            lemma_single_order(FASTEST_BITS as nat, self.bits as nat);
            lemma_single_order(0, self.bits as nat);
            assert(0 * pow2(925) == 0);
        }
        0 < self.bits && self.bits <= FASTEST_BITS
    }
}

/// The limit is exactly 16.
proof fn lemma_fastest()
    ensures
        single_units(FASTEST_BITS as nat) == whole(16),
{
    lemma2_to64();
    lemma_pow2_adds(1055, 19);
    let a = pow2(1055);
    assert(0x80_0000 * a == 16 * (a * 0x8_0000)) by (nonlinear_arith);
}

/// Larger magnitudes are larger numbers.
pub proof fn lemma_single_order(a: nat, b: nat)
    ensures
        a < b ==> single_units(a) < single_units(b),
        a == b ==> single_units(a) == single_units(b),
{
    if a < b {
        let sa = single_significand(a);
        let sb = single_significand(b);
        let ka = single_scale(a);
        let kb = single_scale(b);
        let p = pow2(ka);
        lemma_pow2_pos(ka);
        lemma2_to64();
        if ka == kb {
            assert(sa * p < sb * p) by (nonlinear_arith)
                requires
                    sa < sb,
                    p > 0,
            ;
        } else {
            let g = pow2((kb - ka) as nat);
            lemma_pow2_adds(ka, (kb - ka) as nat);
            lemma_pow2_strictly_increases(0, (kb - ka) as nat);
            assert(sa * p < sb * (p * g)) by (nonlinear_arith)
                requires
                    sa < 0x100_0000,
                    sb >= 0x80_0000,
                    g >= 2,
                    p > 0,
            ;
        }
    }
}

/// The magnitude with significand `q`, `k` steps above the lowest exponent.
pub proof fn lemma_single_compose(q: nat, k: nat)
    requires
        q <= 2 * SINGLE_BINADE,
        k == 0 || SINGLE_BINADE <= q,
    ensures
        single_units(k * (SINGLE_BINADE as nat) + q) == q * pow2(k + 925),
        (k * (SINGLE_BINADE as nat) + q) % 2 == q % 2,
{
    let b = SINGLE_BINADE as nat;
    let m = k * b + q;
    if q < b {
    } else if q < 2 * b {
        assert(m / b == k + 1);
        assert(m % b == q - b);
    } else {
        assert(m / b == k + 2);
        assert(m % b == 0);
        lemma_pow2_unfold(k + 926);
        assert(b * (2 * pow2(k + 925)) == (2 * b) * pow2(k + 925)) by (nonlinear_arith);
    }
}

/// From the exponent `k` on every number is a multiple of `2^(k + 925)` units.
proof fn lemma_single_multiple(d: nat, k: nat) -> (c: nat)
    requires
        k == 0 || d >= (k + 1) * SINGLE_BINADE,
    ensures
        single_units(d) == c * pow2(k + 925),
{
    let b = SINGLE_BINADE as nat;
    if d < b {
        d
    } else {
        assert(d / b >= k + 1);
        let g = (single_scale(d) - (k + 925)) as nat;
        lemma_pow2_adds(k + 925, g);
        let c = single_significand(d) * pow2(g);
        assert(single_significand(d) * (pow2(k + 925) * pow2(g)) == c * pow2(k + 925))
            by (nonlinear_arith)
            requires
                c == single_significand(d) * pow2(g),
        ;
        c
    }
}

/// Rounding to a 24 bit significand gives the nearest number.
pub proof fn lemma_nearest_single(n: int, q: nat, k: nat)
    requires
        q <= 2 * SINGLE_BINADE,
        k <= 253,
        2 * distance(n, (q * pow2(k + 925)) as int) <= pow2(k + 925),
        2 * distance(n, (q * pow2(k + 925)) as int) == pow2(k + 925) ==> q % 2 == 0,
        k == 0 || SINGLE_BINADE <= q && n >= SINGLE_BINADE * pow2(k + 925),
    ensures
        nearest_single(n, k * (SINGLE_BINADE as nat) + q),
{
    let b = SINGLE_BINADE as nat;
    let m = k * b + q;
    let p = pow2(k + 925);
    lemma_single_compose(q, k);
    lemma_single_compose(b, k);
    assert(m <= SINGLE_INFINITE);
    assert forall|d: nat| d <= SINGLE_INFINITE implies distance(single_units(m) as int, n)
        <= #[trigger] distance(single_units(d) as int, n) && (d != m && distance(
        single_units(m) as int,
        n,
    ) == distance(single_units(d) as int, n) ==> m % 2 == 0) by {
        if k == 0 || d >= (k + 1) * b {
            let c = lemma_single_multiple(d, k);
            if c == q {
                lemma_single_order(d, m);
                lemma_single_order(m, d);
            } else {
                lemma_half_step(n, q, c, p);
            }
        } else {
            lemma_single_order(d, k * b + b);
            if q != b {
                lemma_half_step(n, q, b, p);
            }
        }
    }
}

/// What lies at or beyond 2^128 is rounded to infinity.
pub proof fn lemma_nearest_infinite(n: int)
    requires
        n >= single_units(SINGLE_INFINITE as nat),
    ensures
        nearest_single(n, SINGLE_INFINITE as nat),
{
    let m = SINGLE_INFINITE as nat;
    assert forall|d: nat| d <= SINGLE_INFINITE implies distance(single_units(m) as int, n)
        <= #[trigger] distance(single_units(d) as int, n) by {
        lemma_single_order(d, m);
    }
}

/// There is only one nearest number.
proof fn lemma_nearest_single_one_side(n: int, a: nat, b: nat)
    requires
        nearest_single(n, a),
        nearest_single(n, b),
    ensures
        a >= b,
{
    let ua = single_units(a) as int;
    let ub = single_units(b) as int;
    lemma_single_order(a, b);
    assert(distance(ua, n) <= distance(ub, n));
    assert(distance(ub, n) <= distance(ua, n));
    if a + 1 < b {
        let c = a + 1;
        lemma_single_order(a, c);
        lemma_single_order(c, b);
        assert(distance(single_units(c) as int, n) >= distance(ua, n));
    }
}

/// What fits the description of the rounded number is the rounded number.
pub proof fn lemma_narrowed(x: Double, r: Single)
    requires
        nearest_single(x.units(), r.bits as nat),
    ensures
        narrowed(x) == r,
{
    let s = narrowed(x);
    assert(nearest_single(x.units(), s.bits as nat));
    lemma_nearest_single_one_side(x.units(), s.bits as nat, r.bits as nat);
    lemma_nearest_single_one_side(x.units(), r.bits as nat, s.bits as nat);
}

/// Halving `shift` times, to the nearest integer, ties to even.
fn round_off(f: u64, shift: u64) -> (q: u64)
    requires
        f < 0x20_0000_0000_0000,
        1 <= shift <= 53,
    ensures
        2 * distance(f as int, (q * pow2(shift as nat)) as int) <= pow2(shift as nat),
        2 * distance(f as int, (q * pow2(shift as nat)) as int) == pow2(shift as nat) ==> q % 2
            == 0,
        f / (pow2(shift as nat) as u64) <= q <= f / (pow2(shift as nat) as u64) + 1,
        pow2(shift as nat) <= 0x20_0000_0000_0000,
{
    let wide: u128 = power(shift);
    proof {
        lemma2_to64();
        lemma2_to64_rest();
        if shift < 53 {
            lemma_pow2_strictly_increases(shift as nat, 53);
        }
    }
    let p: u64 = wide as u64;
    let q: u64 = f / p;
    let rest: u64 = f % p;
    proof {
        vstd::arithmetic::div_mod::lemma_fundamental_div_mod(f as int, p as int);
        assert(q * p == p * q) by (nonlinear_arith);
        assert((q + 1) * p == q * p + p) by (nonlinear_arith);
        assert(q <= f) by (nonlinear_arith)
            requires
                q == f / p,
                p >= 1,
        ;
    }
    if rest > p - rest || (rest == p - rest && q % 2 == 1) {
        q + 1
    } else {
        q
    }
}

/// Distances grow with the scale.
proof fn lemma_scaled(f: nat, q: nat, p: nat, w: nat)
    requires
        2 * distance(f as int, (q * p) as int) <= p,
        2 * distance(f as int, (q * p) as int) == p ==> q % 2 == 0,
        w > 0,
    ensures
        2 * distance((f * w) as int, (q * (p * w)) as int) <= p * w,
        2 * distance((f * w) as int, (q * (p * w)) as int) == p * w ==> q % 2 == 0,
{
    let gap = distance(f as int, (q * p) as int);
    assert(q * (p * w) == (q * p) * w) by (nonlinear_arith);
    assert(f <= q * p ==> (q * p) * w - f * w == gap * w && f * w <= (q * p) * w)
        by (nonlinear_arith)
        requires
            f <= q * p ==> gap == q * p - f,
            w > 0,
    ;
    assert(f > q * p ==> f * w - (q * p) * w == gap * w && f * w >= (q * p) * w)
        by (nonlinear_arith)
        requires
            f > q * p ==> gap == f - q * p,
            w > 0,
    ;
    assert(2 * (gap * w) <= p * w) by (nonlinear_arith)
        requires
            2 * gap <= p,
            w > 0,
    ;
    assert(2 * (gap * w) == p * w ==> 2 * gap == p) by (nonlinear_arith)
        requires
            w > 0,
    ;
}

/// `x as f32`, for a positive finite `x`.
pub fn narrow(x: Double) -> (r: Single)
    requires
        x.finite(),
        x.units() > 0,
    ensures
        nearest_single(x.units(), r.bits as nat),
        r == narrowed(x),
{
    proof {
        lemma_units_zero();
        lemma2_to64();
        lemma2_to64_rest();
    }
    let m: u64 = x.bits % SIGN;
    let e: u64 = m / BINADE;
    let k: u64 = if e == 0 {
        0
    } else {
        e - 1
    };
    let f: u64 = if e == 0 {
        m
    } else {
        BINADE + m % BINADE
    };
    assert(k == scale(m as nat) && f == significand(m as nat));
    let ghost w = pow2(k as nat);
    let ghost exact: int = x.units();
    proof {
        lemma_units_order(0, m as nat);
        lemma_pow2_pos(k as nat);
        assert(exact == f * w);
    }
    let bits: u32 = if k > 1149 {
        proof {
            lemma_pow2_adds(1150, (k - 1150) as nat);
            lemma_pow2_pos((k - 1150) as nat);
            lemma_pow2_adds(1150, 29);
            let g = pow2((k - 1150) as nat);
            let a = pow2(1150);
            assert(f * (a * g) >= 0x80_0000 * (a * 0x2000_0000)) by (nonlinear_arith)
                requires
                    f >= 0x10_0000_0000_0000,
                    g >= 1,
                    a >= 0,
            ;
            lemma_nearest_infinite(exact);
        }
        SINGLE_INFINITE
    } else if k >= 896 {
        let q: u64 = round_off(f, 29);
        proof {
            lemma_pow2_adds(29, k as nat);
            lemma_scaled(f as nat, q as nat, pow2(29), w);
            assert(f * w >= 0x80_0000 * (0x2000_0000 * w)) by (nonlinear_arith)
                requires
                    f >= 0x10_0000_0000_0000,
                    w >= 0,
            ;
            lemma_nearest_single(exact, q as nat, (k - 896) as nat);
        }
        (k - 896) as u32 * SINGLE_BINADE + q as u32
    } else if 925 - k <= 53 {
        let q: u64 = round_off(f, 925 - k);
        proof {
            let p = pow2((925 - k) as nat);
            lemma_pow2_adds((925 - k) as nat, k as nat);
            lemma_scaled(f as nat, q as nat, p, w);
            if 925 - k > 30 {
                lemma_pow2_strictly_increases(30, (925 - k) as nat);
            }
            assert(f / (p as u64) <= 0x7f_ffff) by (nonlinear_arith)
                requires
                    f < 0x20_0000_0000_0000,
                    0x4000_0000 <= p <= 0x20_0000_0000_0000,
            ;
            lemma_nearest_single(exact, q as nat, 0);
        }
        q as u32
    } else {
        proof {
            let g = (925 - k) as nat;
            lemma_pow2_adds(g, k as nat);
            lemma_pow2_strictly_increases(53, g);
            lemma_pow2_unfold(54);
            if g > 54 {
                lemma_pow2_strictly_increases(54, g);
            }
            assert(2 * (f * w) < pow2(g) * w) by (nonlinear_arith)
                requires
                    f < 0x20_0000_0000_0000,
                    pow2(g) >= 0x40_0000_0000_0000,
                    w > 0,
            ;
            assert(0 * pow2(925) == 0);
            lemma_nearest_single(exact, 0, 0);
        }
        0
    };
    let r = Single { bits };
    proof {
        lemma_narrowed(x, r);
    }
    r
}

/// Rounding does not pass over a representable number, so what is one already
/// stays as it is.
pub proof fn law_narrowing_keeps_order(n: int, m: nat, d: nat)
    requires
        nearest_single(n, m),
        d <= SINGLE_INFINITE,
    ensures
        single_units(d) <= n ==> d <= m,
        n <= single_units(d) ==> m <= d,
        n == single_units(d) ==> m == d,
{
    lemma_single_order(d, m);
    lemma_single_order(m, d);
    assert(distance(single_units(m) as int, n) <= distance(single_units(d) as int, n));
}

/// Every speed up to 16 is valid once it is rounded, down to the smallest
/// positive binary32 number; no speed from 17 on is.
pub proof fn law_speed_limits(rate: Double, speed: Single)
    requires
        nearest_single(rate.units(), speed.bits as nat),
    ensures
        pow2(925) <= rate.units() <= whole(16) ==> speed.valid_speed(),
        rate.units() >= whole(17) ==> !speed.valid_speed(),
        speed.valid_speed() ==> 0 < single_units(speed.bits as nat) <= whole(16),
{
    let n = rate.units();
    let m = speed.bits as nat;
    lemma_fastest();
    lemma_pow2_pos(925);
    lemma_pow2_pos(1074);
    law_narrowing_keeps_order(n, m, FASTEST_BITS as nat);
    assert(single_units(1) == 1 * pow2(925));
    law_narrowing_keeps_order(n, m, 1);
    lemma_single_order(0, m);
    lemma_single_order(m, FASTEST_BITS as nat);
    lemma2_to64();
    lemma_pow2_adds(1055, 19);
    let a = pow2(1055);
    assert(0x88_0000 * a == 17 * (a * 0x8_0000)) by (nonlinear_arith);
    assert(single_units(0x4188_0000) == 0x88_0000 * a);
    law_narrowing_keeps_order(n, m, 0x4188_0000);
    lemma_single_order(FASTEST_BITS as nat, m);
}

} // verus!
