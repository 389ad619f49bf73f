//! Positions and lengths in a track: seconds as binary64 numbers.
use crate::double::{
    lemma_units_order, lemma_units_zero, scale, significand, units_of, whole, Double, BINADE,
    INFINITE, SIGN,
};
use crate::rounding::{
    distance, is_sum, lemma_compose, lemma_multiple, lemma_nearest, lemma_nearest_bounds,
    lemma_nearest_exists, lemma_representable, lemma_sum, nearest, power, round, sum,
};
use vstd::arithmetic::power2::{
    lemma2_to64, lemma2_to64_rest, lemma_pow2_adds, lemma_pow2_pos, lemma_pow2_strictly_increases,
    pow2,
};
use vstd::prelude::*;

verus! {

/// The bit pattern of 604800, a week in seconds.
pub const WEEK_BITS: u64 = 0x4122_7500_0000_0000;

/// The bit pattern of the number nearest to 1/5, the seconds between two polls.
pub const TICK_BITS: u64 = 0x3fc9_9999_9999_999a;

/// The significand of the numbers nearest to 1/5 and to 1/20.
pub const TICK_SIGNIFICAND: u64 = 0x19_9999_9999_999a;

/// The bit pattern of the number nearest to 1/20.
pub const NEAR_BITS: u64 = 0x3fa9_9999_9999_999a;

/// The bit pattern of 1/4.
pub const QUARTER_BITS: u64 = 0x3fd0_0000_0000_0000;

/// The longest position and length that is kept: seven days.
pub open spec fn week() -> Double {
    Double { bits: WEEK_BITS }
}

/// How much time passes between two polls: a fifth of a second.
pub open spec fn tick_length() -> Double {
    Double { bits: TICK_BITS }
}

/// The change in position below which a checkpoint is not renewed.
pub open spec fn near_limit() -> Double {
    Double { bits: NEAR_BITS }
}

/// Positions up to here are not worth a checkpoint.
pub open spec fn quarter() -> Double {
    Double { bits: QUARTER_BITS }
}

/// A position or length between zero and seven days.
pub open spec fn in_week(t: Double) -> bool {
    t.finite() && 0 <= t.units() <= whole(604800)
}

/// The constants are what their names say: seven days and a quarter exactly, a
/// fifth and a twentieth as near as binary64 can come.
pub proof fn lemma_constants()
    ensures
        week().units() == whole(604800),
        week().finite(),
        4 * quarter().units() == whole(1),
        nearest_fraction(tick_length(), 5),
        nearest_fraction(near_limit(), 20),
        tick_length().units() == TICK_SIGNIFICAND * pow2(1019),
        near_limit().units() == TICK_SIGNIFICAND * pow2(1017),
{
    lemma2_to64();
    lemma2_to64_rest();
    // 604800 = 0x12_7500_0000_0000 * 2^-33
    assert(significand(WEEK_BITS as nat) == 0x12_7500_0000_0000);
    assert(scale(WEEK_BITS as nat) == 1041);
    lemma_pow2_adds(1041, 33);
    let a = pow2(1041);
    assert(0x12_7500_0000_0000 * a == 604800 * (a * 0x2_0000_0000)) by (nonlinear_arith);
    assert(significand(QUARTER_BITS as nat) == BINADE);
    assert(scale(QUARTER_BITS as nat) == 1020);
    lemma_pow2_adds(1020, 54);
    let b = pow2(1020);
    assert(4 * (0x10_0000_0000_0000 * b) == 1 * (b * 0x40_0000_0000_0000)) by (nonlinear_arith);
    assert(significand(TICK_BITS as nat) == TICK_SIGNIFICAND);
    assert(scale(TICK_BITS as nat) == 1019);
    lemma_pow2_adds(1019, 55);
    let c = pow2(1019);
    assert(5 * (0x19_9999_9999_999a * c) == 1 * (c * 0x80_0000_0000_0000) + 2 * c)
        by (nonlinear_arith);
    assert(significand(NEAR_BITS as nat) == TICK_SIGNIFICAND);
    assert(scale(NEAR_BITS as nat) == 1017);
    lemma_pow2_adds(1017, 57);
    let d = pow2(1017);
    assert(20 * (0x19_9999_9999_999a * d) == 1 * (d * 0x200_0000_0000_0000) + 8 * d)
        by (nonlinear_arith);
}

/// `x` is within half a step of its own scale of `1 / n`.
pub open spec fn nearest_fraction(x: Double, n: nat) -> bool {
    2 * distance(n * x.units(), whole(1) as int) <= n * pow2(scale(x.magnitude()))
}


/// What `in_week` means for the bit pattern.
proof fn lemma_in_week(t: Double)
    requires
        in_week(t),
    ensures
        t.units() == units_of(t.magnitude()),
        t.magnitude() <= WEEK_BITS,
        scale(t.magnitude()) <= 1041,
{
    lemma_constants();
    lemma_units_order(WEEK_BITS as nat, t.magnitude());
    lemma_units_zero();
    lemma_units_order(0, t.magnitude());
}

/// `t + 0.2`: the position one poll later.
fn advance(t: Double) -> (r: Double)
    requires
        in_week(t),
    ensures
        is_sum(t, tick_length(), r),
        r == sum(t, tick_length()),
{
    let m: u64 = t.bits % SIGN;
    proof {
        lemma_in_week(t);
        lemma_constants();
        lemma2_to64();
        lemma2_to64_rest();
    }
    let e: u64 = m / BINADE;
    let k: u64 = if e == 0 {
        0
    } else {
        e - 1
    };
    let f: u64 = if e == 0 {
        m
    } else {
        BINADE + m % BINADE
    };
    assert(k == scale(m as nat) && f == significand(m as nat));
    let ghost exact: int = t.units() + tick_length().units();
    let r: u64 = if k >= 1019 {
        let p: u128 = power(k - 1019);
        proof {
            if k < 1041 {
                lemma_pow2_strictly_increases((k - 1019) as nat, 22);
            }
            lemma_pow2_adds(1019, (k - 1019) as nat);
            assert(f * p <= 0x20_0000_0000_0000 * 0x40_0000) by (nonlinear_arith)
                requires
                    f < 0x20_0000_0000_0000,
                    p <= 0x40_0000,
            ;
            let w = pow2(1019);
            assert((f * p + TICK_SIGNIFICAND) * w == f * (w * p) + TICK_SIGNIFICAND * w)
                by (nonlinear_arith);
        }
        round(f as u128 * p + TICK_SIGNIFICAND as u128, 1019)
    } else if 1019 - k <= 64 {
        let p: u128 = power(1019 - k);
        proof {
            lemma_pow2_adds(k as nat, (1019 - k) as nat);
            assert(TICK_SIGNIFICAND * p <= 0x20_0000_0000_0000 * 0x1_0000_0000_0000_0000)
                by (nonlinear_arith)
                requires
                    p <= 0x1_0000_0000_0000_0000,
            ;
            assert(TICK_SIGNIFICAND * p >= TICK_SIGNIFICAND) by (nonlinear_arith)
                requires
                    p >= 1,
            ;
            let w = pow2(k as nat);
            assert((TICK_SIGNIFICAND * p + f) * w == TICK_SIGNIFICAND * (w * p) + f * w)
                by (nonlinear_arith);
        }
        round(TICK_SIGNIFICAND as u128 * p + f as u128, k)
    } else {
        proof {
            let g = (1019 - k) as nat;
            let w = pow2(k as nat);
            lemma_pow2_adds(k as nat, g);
            lemma_pow2_strictly_increases(64, g);
            lemma_pow2_pos(k as nat);
            assert(2 * (f * w) < w * pow2(g)) by (nonlinear_arith)
                requires
                    f < 0x20_0000_0000_0000,
                    pow2(g) > 0x1_0000_0000_0000_0000,
                    w > 0,
            ;
            assert(f * w >= 0) by (nonlinear_arith);
            assert(TICK_SIGNIFICAND * pow2(1019) >= BINADE * pow2(1019)) by (nonlinear_arith);
            lemma_nearest(exact, TICK_SIGNIFICAND as nat, 1019);
            assert(TICK_BITS == 1019 * BINADE + TICK_SIGNIFICAND);
        }
        TICK_BITS
    };
    let sum_bits = Double { bits: r };
    proof {
        assert(nearest(exact, r as nat));
        lemma_sum(t, tick_length(), sum_bits);
    }
    sum_bits
}

/// `x`, but no more than seven days; seven days where `x` is NaN.
pub open spec fn capped(x: Double) -> Double {
    if x.at_most(week()) {
        x
    } else {
        week()
    }
}

/// `x`, but no less than zero; zero where `x` is NaN.
pub open spec fn raised(x: Double) -> Double {
    if !x.nan() && x.units() > 0 {
        x
    } else {
        Double::zero()
    }
}

/// `x` when it can be a length of time, up to seven days; otherwise zero.
pub open spec fn clamped_span(x: Double) -> Double {
    if x.finite() && x.units() >= 0 {
        capped(x)
    } else {
        Double::zero()
    }
}

/// Clamped lengths are between zero and seven days, and what lies there
/// already is left alone.
pub proof fn lemma_clamped_span(x: Double)
    ensures
        in_week(clamped_span(x)),
        in_week(Double::zero()),
        in_week(x) ==> clamped_span(x) == x && capped(x) == x,
        x.finite() ==> in_week(capped(raised(x))),
        x.finite() ==> clamped_span(raised(x)) == capped(raised(x)),
{
    lemma_constants();
    lemma_units_zero();
}

/// `x.min(604800)`.
pub fn cap(x: Double) -> (r: Double)
    ensures
        r == capped(x),
{
    let limit = Double { bits: WEEK_BITS };
    if x.le(&limit) {
        x
    } else {
        limit
    }
}

/// `x.max(0)`; zero comes out with a plus sign.
pub fn raise(x: Double) -> (r: Double)
    ensures
        r == raised(x),
{
    proof {
        lemma_units_zero();
        lemma_units_order(0, x.magnitude());
    }
    if x.bits >= SIGN || x.bits > INFINITE {
        Double::zero()
    } else {
        assert(x.magnitude() == x.bits);
        x
    }
}

/// The length of a track as reported by its decoder, made safe to keep.
pub fn clamp_span(x: Double) -> (r: Double)
    ensures
        r == clamped_span(x),
        in_week(r),
{
    proof {
        lemma_clamped_span(x);
        lemma_units_zero();
        lemma_units_order(0, x.magnitude());
    }
    if x.is_finite() && Double::zero().le(&x) {
        cap(x)
    } else {
        Double::zero()
    }
}

/// A number of seconds that cannot be turned into a duration.
#[derive(Clone, Copy, Debug, PartialEq, Eq, Structural)]
pub struct InvalidDuration {
    pub secs: Double,
}

/// The seconds to build a duration from: `secs` itself up to seven days. What
/// is negative, infinite or NaN is refused.
pub fn safe_duration(secs: Double) -> (r: Result<Double, InvalidDuration>)
    ensures
        r is Ok <==> secs.finite() && secs.units() >= 0,
        r matches Ok(d) ==> d == capped(secs) && in_week(d),
        r matches Err(e) ==> e.secs == secs,
{
    proof {
        lemma_clamped_span(secs);
        lemma_units_zero();
        lemma_units_order(0, secs.magnitude());
    }
    if !secs.is_finite() || !Double::zero().le(&secs) {
        return Err(InvalidDuration { secs });
    }
    Ok(cap(secs))
}

/// The position one poll later, held at seven days.
pub open spec fn next_position(t: Double) -> Double {
    capped(sum(t, tick_length()))
}

/// `(t + 0.2).min(604800)`.
pub fn step(t: Double) -> (r: Double)
    requires
        in_week(t),
    ensures
        r == next_position(t),
        is_sum(t, tick_length(), sum(t, tick_length())),
        in_week(r),
{
    proof {
        lemma_step(t);
    }
    cap(advance(t))
}

/// One poll takes the position forward by a fifth of a second, give or take a
/// hundredth, unless seven days are reached; it never takes it back.
pub proof fn lemma_step(t: Double)
    requires
        in_week(t),
    ensures
        is_sum(t, tick_length(), sum(t, tick_length())),
        in_week(next_position(t)),
        t.units() <= next_position(t).units(),
        next_position(t) == week() || 100 * (next_position(t).units() - t.units()) >= 19 * whole(1),
        100 * (next_position(t).units() - t.units()) <= 21 * whole(1),
{
    lemma_in_week(t);
    lemma_constants();
    lemma_units_zero();
    lemma2_to64();
    lemma2_to64_rest();
    let n = t.units() + tick_length().units();
    let w = pow2(1019);
    let p = pow2(1041);
    lemma_pow2_pos(1019);
    lemma_pow2_adds(1019, 22);
    lemma_pow2_adds(1019, 55);
    assert(p == 0x40_0000 * w);
    assert(whole(1) == 0x80_0000_0000_0000 * w);
    assert(n <= 604801 * (0x2_0000_0000 * p)) by {
        assert(whole(604800) == 604800 * (0x2_0000_0000 * p));
    }
    // A number within one step of 2^1041 below the exact sum exists.
    let c = (n / (p as int)) as nat;
    vstd::arithmetic::div_mod::lemma_fundamental_div_mod(n, p as int);
    assert(c < 2 * BINADE) by (nonlinear_arith)
        requires
            c == n / (p as int),
            n <= 604801 * (0x2_0000_0000 * p),
            p > 0,
    ;
    let d = lemma_representable(c, 1041);
    assert(units_of(d) == p * c) by (nonlinear_arith)
        requires
            units_of(d) == c * p,
    ;
    lemma_pow2_adds(1041, 30);
    let m = lemma_nearest_exists(n as nat, 1071);
    lemma_sum(t, tick_length(), Double { bits: m as u64 });
    let s = sum(t, tick_length());
    assert(nearest(n, s.magnitude()));
    assert(distance(units_of(s.magnitude()) as int, n) <= distance(units_of(d) as int, n));
    assert(distance(units_of(d) as int, n) < p);
    assert(s.units() == units_of(s.magnitude()));
    assert(100 * (TICK_SIGNIFICAND * w - 0x40_0000 * w) >= 19 * (0x80_0000_0000_0000 * w));
    assert(100 * (TICK_SIGNIFICAND * w + 0x40_0000 * w) <= 21 * (0x80_0000_0000_0000 * w));
}

/// Two positions at which a checkpoint would say the same: no further apart
/// than a twentieth of a second.
pub open spec fn near(a: Double, b: Double) -> bool {
    distance(a.units(), b.units()) <= near_limit().units()
}

/// A position that is worth a checkpoint: finite, and past a quarter second.
pub open spec fn past_quarter(t: Double) -> bool {
    t.finite() && t.units() > quarter().units()
}

/// What `past_quarter` means for the bit pattern.
proof fn lemma_past_quarter(t: Double)
    requires
        past_quarter(t),
    ensures
        t.units() == units_of(t.magnitude()),
        t.magnitude() > QUARTER_BITS,
        t.magnitude() == t.bits,
        1020 <= scale(t.magnitude()) <= 2045,
{
    lemma_units_zero();
    lemma_units_order(0, t.magnitude());
    lemma_units_order(0, QUARTER_BITS as nat);
    lemma_units_order(t.magnitude(), QUARTER_BITS as nat);
}

/// Whether a position has passed a quarter second.
pub fn is_past_quarter(t: Double) -> (r: bool)
    ensures
        r == past_quarter(t),
{
    t.is_finite() && !t.le(&Double { bits: QUARTER_BITS })
}

/// Whether two positions past a quarter second are near each other.
pub fn is_near(a: Double, b: Double) -> (r: bool)
    requires
        past_quarter(a),
        past_quarter(b),
    ensures
        r == near(a, b),
{
    proof {
        lemma_past_quarter(a);
        lemma_past_quarter(b);
        lemma_constants();
        lemma_units_order(a.magnitude(), b.magnitude());
        lemma_units_order(b.magnitude(), a.magnitude());
        lemma2_to64();
        lemma2_to64_rest();
    }
    let (high, low) = if a.bits < b.bits {
        (b.bits, a.bits)
    } else {
        (a.bits, b.bits)
    };
    let k: u64 = low / BINADE - 1;
    let gap: u64 = high / BINADE - 1 - k;
    let f: u64 = BINADE + low % BINADE;
    let h: u64 = BINADE + high % BINADE;
    let ghost w = pow2(k as nat);
    let ghost base = pow2(1017);
    proof {
        lemma_pow2_adds(k as nat, gap as nat);
        lemma_pow2_adds(1017, (k - 1017) as nat);
        lemma_pow2_pos(1017);
        lemma_pow2_pos(k as nat);
        lemma_pow2_strictly_increases(2, (k - 1017) as nat);
        assert(units_of(low as nat) == f * w);
        assert(units_of(high as nat) == h * (w * pow2(gap as nat)));
        assert(w == base * pow2((k - 1017) as nat));
    }
    if gap >= 2 {
        proof {
            if gap > 2 {
                lemma_pow2_strictly_increases(2, gap as nat);
            }
            let g = pow2(gap as nat);
            let v = pow2((k - 1017) as nat);
            assert(h * (w * g) - f * w > TICK_SIGNIFICAND * base) by (nonlinear_arith)
                requires
                    g >= 4,
                    v >= 1,
                    h >= 0x10_0000_0000_0000,
                    f < 0x20_0000_0000_0000,
                    w == base * v,
                    base > 0,
            ;
        }
        false
    } else {
        let n: u64 = if gap == 1 {
            2 * h - f
        } else {
            h - f
        };
        proof {
            if gap == 1 {
                assert(h * (w * 2) - f * w == n * w) by (nonlinear_arith)
                    requires
                        n == 2 * h - f,
                ;
            } else {
                assert(h * (w * 1) - f * w == n * w) by (nonlinear_arith)
                    requires
                        n == h - f,
                ;
            }
        }
        let shift: u64 = k - 1017;
        let ghost v = pow2(shift as nat);
        proof {
            assert(n * (base * v) == (n * v) * base) by (nonlinear_arith);
        }
        if shift >= 53 {
            proof {
                if shift > 53 {
                    lemma_pow2_strictly_increases(53, shift as nat);
                }
                assert(n > 0 ==> (n * v) * base > TICK_SIGNIFICAND * base) by (nonlinear_arith)
                    requires
                        v >= 0x20_0000_0000_0000,
                        base > 0,
                ;
            }
            n == 0
        } else {
            let p: u128 = power(shift);
            proof {
                if shift < 53 {
                    lemma_pow2_strictly_increases(shift as nat, 53);
                }
                assert(n * p <= 0x40_0000_0000_0000 * 0x20_0000_0000_0000) by (nonlinear_arith)
                    requires
                        n <= 0x40_0000_0000_0000,
                        p <= 0x20_0000_0000_0000,
                ;
                assert(n * v <= TICK_SIGNIFICAND <==> (n * v) * base <= TICK_SIGNIFICAND * base)
                    by (nonlinear_arith)
                    requires
                        base > 0,
                ;
            }
            n as u128 * p <= TICK_SIGNIFICAND as u128
        }
    }
}

/// Comparing the exact difference is the same as subtracting in binary64 and
/// comparing what comes out: the rounded difference `d` is at most a twentieth
/// if and only if the exact one is.
pub proof fn lemma_near_after_rounding(a: Double, b: Double, d: nat)
    requires
        past_quarter(a),
        past_quarter(b),
        nearest(distance(a.units(), b.units()), d),
    ensures
        near(a, b) <==> units_of(d) <= near_limit().units(),
{
    lemma_constants();
    lemma_past_quarter(a);
    lemma_past_quarter(b);
    let n = distance(a.units(), b.units());
    let limit = NEAR_BITS as nat;
    lemma_nearest_bounds(n, d, limit);
    lemma_nearest_bounds(n, d, limit + 1);
    lemma_units_order(limit, d);
    lemma_units_order(d, limit);
    lemma2_to64();
    lemma_pow2_adds(1017, 3);
    lemma_pow2_pos(1017);
    let ca = lemma_multiple(a.magnitude(), 1020);
    let cb = lemma_multiple(b.magnitude(), 1020);
    let base = pow2(1017);
    let c = distance(ca as int, cb as int);
    assert(n == (8 * c) * base) by (nonlinear_arith)
        requires
            n == distance((ca * (base * 8)) as int, (cb * (base * 8)) as int),
            c == distance(ca as int, cb as int),
            base > 0,
    ;
    assert(limit + 1 == 1017 * BINADE + (TICK_SIGNIFICAND + 1));
    lemma_compose((TICK_SIGNIFICAND + 1) as nat, 1017);
    assert(n > TICK_SIGNIFICAND * base ==> n >= (TICK_SIGNIFICAND + 1) * base) by (nonlinear_arith)
        requires
            n == (8 * c) * base,
            base > 0,
    ;
}

/// A length between zero and seven days is kept as it is, a longer one becomes
/// seven days, and what is negative, infinite or NaN becomes zero.
pub proof fn law_clamped_span(x: Double)
    ensures
        x.finite() && 0 <= x.units() <= whole(604800) ==> clamped_span(x) == x,
        x.finite() && x.units() > whole(604800) ==> clamped_span(x).finite()
            && clamped_span(x).units() == whole(604800),
        !x.finite() || x.units() < 0 ==> clamped_span(x) == (Double { bits: 0 }),
{
    lemma_constants();
}

/// Taken to at least zero and at most seven days, a finite number is the one
/// of that range nearest to it.
pub proof fn law_held_in_range(x: Double, other: Double)
    requires
        x.finite(),
        in_week(other),
    ensures
        0 <= capped(raised(x)).units() <= whole(604800),
        distance(capped(raised(x)).units(), x.units()) <= distance(other.units(), x.units()),
{
    lemma_constants();
    lemma_units_zero();
    lemma_clamped_span(x);
}

/// Positions no more than 1/20 of a second apart are near, positions 1/19 or
/// more apart are not, and it does not matter which comes first.
pub proof fn law_near(a: Double, b: Double)
    ensures
        20 * distance(a.units(), b.units()) <= whole(1) ==> near(a, b),
        19 * distance(a.units(), b.units()) >= whole(1) ==> !near(a, b),
        near(a, b) == near(b, a),
{
    lemma_constants();
    lemma2_to64();
    lemma2_to64_rest();
    lemma_pow2_adds(1017, 57);
    lemma_pow2_pos(1017);
    let w = pow2(1017);
    assert(whole(1) == 0x200_0000_0000_0000 * w);
}

/// A position counts if and only if it is finite and more than a quarter of a
/// second.
pub proof fn law_past_quarter(t: Double)
    ensures
        past_quarter(t) <==> t.finite() && 4 * t.units() > whole(1),
{
    lemma_constants();
}

/// The position one poll later is the number nearest to the exact sum of the
/// position and the length of a poll, unless that is seven days or more.
pub proof fn law_next_position_is_nearest(t: Double, d: nat)
    requires
        in_week(t),
        d < INFINITE,
    ensures
        next_position(t).units() == whole(604800) || distance(
            next_position(t).units(),
            t.units() + tick_length().units(),
        ) <= distance(units_of(d) as int, t.units() + tick_length().units()),
{
    lemma_step(t);
    lemma_constants();
    let s = sum(t, tick_length());
    assert(s.units() == units_of(s.magnitude()));
    assert(distance(units_of(s.magnitude()) as int, t.units() + tick_length().units()) <= distance(
        units_of(d) as int,
        t.units() + tick_length().units(),
    ));
}

} // verus!
