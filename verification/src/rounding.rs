//! Binary64 addition: the exact sum, rounded to the nearest number.
use crate::double::{lemma_units_order, scale, significand, units_of, Double, BINADE, INFINITE};
use vstd::arithmetic::power2::{
    lemma2_to64, lemma2_to64_rest, lemma_pow2_adds, lemma_pow2_pos, lemma_pow2_strictly_increases,
    lemma_pow2_unfold, pow2,
};
use vstd::prelude::*;

verus! {

/// How far apart two values are, in units.
pub open spec fn distance(a: int, b: int) -> int {
    if a <= b {
        b - a
    } else {
        a - b
    }
}

/// `m` is the magnitude of the finite number nearest to `n` units; of two that
/// are equally near, the one whose bit pattern is even.
pub open spec fn nearest(n: int, m: nat) -> bool {
    &&& m < INFINITE
    &&& forall|d: nat|
        d < INFINITE ==> distance(units_of(m) as int, n) <= #[trigger] distance(
            units_of(d) as int,
            n,
        )
    &&& forall|d: nat|
        d < INFINITE && d != m && distance(units_of(m) as int, n) == #[trigger] distance(
            units_of(d) as int,
            n,
        ) ==> m % 2 == 0
}

/// The magnitude with significand `q` at exponent `k` is `q * 2^k` units.
pub proof fn lemma_compose(q: nat, k: nat)
    requires
        BINADE <= q <= 2 * BINADE,
    ensures
        units_of(k * (BINADE as nat) + q) == q * pow2(k),
        (k * (BINADE as nat) + q) % 2 == q % 2,
{
    let b = BINADE as nat;
    let m = k * b + q;
    if q < 2 * b {
        assert(m / b == k + 1);
        assert(m % b == q - b);
    } else {
        assert(m / b == k + 2);
        assert(m % b == 0);
        lemma_pow2_unfold(k + 1);
        assert(b * (2 * pow2(k)) == (2 * b) * pow2(k)) by (nonlinear_arith);
    }
}

/// Above the exponent `k` every number is a multiple of `2^k` units.
pub(crate) proof fn lemma_multiple(d: nat, k: nat) -> (c: nat)
    requires
        d >= (k + 1) * BINADE,
    ensures
        units_of(d) == c * pow2(k),
        c >= BINADE,
{
    let b = BINADE as nat;
    assert(d / b >= k + 1) by {
        vstd::arithmetic::div_mod::lemma_div_is_ordered(((k + 1) * b) as int, d as int, b as int);
        vstd::arithmetic::div_mod::lemma_div_multiples_vanish((k + 1) as int, b as int);
    }
    let g = (scale(d) - k) as nat;
    lemma_pow2_adds(k, g);
    lemma_pow2_pos(g);
    let c = significand(d) * pow2(g);
    assert(significand(d) * (pow2(k) * pow2(g)) == c * pow2(k)) by (nonlinear_arith)
        requires
            c == significand(d) * pow2(g),
    ;
    assert(c >= b) by (nonlinear_arith)
        requires
            c == significand(d) * pow2(g),
            significand(d) >= b,
            pow2(g) >= 1,
    ;
    c
}

/// Two different multiples of `p`: the one within half of `p` is the nearer.
pub(crate) proof fn lemma_half_step(n: int, q: nat, c: nat, p: nat)
    requires
        2 * distance(n, (q * p) as int) <= p,
        q != c,
    ensures
        distance((q * p) as int, n) <= distance((c * p) as int, n),
        distance((q * p) as int, n) == distance((c * p) as int, n) ==> 2 * distance(
            n,
            (q * p) as int,
        ) == p,
{
    assert(q < c ==> c * p >= q * p + p) by (nonlinear_arith);
    assert(c < q ==> q * p >= c * p + p) by (nonlinear_arith);
}

/// Rounding to a 53 bit significand gives the nearest number.
pub proof fn lemma_nearest(n: int, q: nat, k: nat)
    requires
        BINADE <= q <= 2 * BINADE,
        k <= 2040,
        2 * distance(n, (q * pow2(k)) as int) <= pow2(k),
        2 * distance(n, (q * pow2(k)) as int) == pow2(k) ==> q % 2 == 0,
        n >= BINADE * pow2(k),
    ensures
        nearest(n, k * (BINADE as nat) + q),
{
    let b = BINADE as nat;
    let m = k * b + q;
    let p = pow2(k);
    lemma_compose(q, k);
    lemma_compose(b, k);
    assert(m < INFINITE);
    assert forall|d: nat| d < INFINITE implies distance(units_of(m) as int, n) <= #[trigger] distance(
        units_of(d) as int,
        n,
    ) && (d != m && distance(units_of(m) as int, n) == distance(units_of(d) as int, n) ==> m % 2
        == 0) by {
        if d >= (k + 1) * b {
            let c = lemma_multiple(d, k);
            if c == q {
                lemma_units_order(d, m);
                lemma_units_order(m, d);
            } else {
                lemma_half_step(n, q, c, p);
            }
        } else {
            lemma_units_order(d, k * b + b);
            if q != b {
                lemma_half_step(n, q, b, p);
            }
        }
    }
}

/// There is only one nearest number.
pub proof fn lemma_nearest_unique(n: int, a: nat, b: nat)
    requires
        nearest(n, a),
        nearest(n, b),
    ensures
        a == b,
{
    lemma_nearest_one_side(n, a, b);
    lemma_nearest_one_side(n, b, a);
}

proof fn lemma_nearest_one_side(n: int, a: nat, b: nat)
    requires
        nearest(n, a),
        nearest(n, b),
    ensures
        a >= b,
{
    let ua = units_of(a) as int;
    let ub = units_of(b) as int;
    lemma_units_order(a, b);
    assert(distance(ua, n) <= distance(ub, n));
    assert(distance(ub, n) <= distance(ua, n));
    if a + 1 < b {
        let c = a + 1;
        lemma_units_order(a, c);
        lemma_units_order(c, b);
        assert(distance(units_of(c) as int, n) >= distance(ua, n));
    }
}

/// Rounding does not pass over a representable number.
pub proof fn lemma_nearest_bounds(n: int, m: nat, d: nat)
    requires
        nearest(n, m),
        d < INFINITE,
    ensures
        units_of(d) <= n ==> d <= m,
        n <= units_of(d) ==> m <= d,
        n == units_of(d) ==> m == d,
{
    lemma_units_order(d, m);
    lemma_units_order(m, d);
    assert(distance(units_of(m) as int, n) <= distance(units_of(d) as int, n));
}

/// Every multiple of a power of two with few enough bits is a number: some
/// magnitude has exactly `c * 2^k` units.
pub proof fn lemma_representable(c: nat, k: nat) -> (d: nat)
    requires
        c < 2 * BINADE,
        k <= 2040,
    ensures
        d < INFINITE,
        units_of(d) == c * pow2(k),
    decreases k,
{
    lemma2_to64();
    if c >= BINADE {
        lemma_compose(c, k);
        k * (BINADE as nat) + c
    } else if k == 0 {
        c
    } else {
        lemma_pow2_unfold(k);
        let h = pow2((k - 1) as nat);
        assert(c * (2 * h) == (2 * c) * h) by (nonlinear_arith);
        lemma_representable(2 * c, (k - 1) as nat)
    }
}

/// Some number is nearest to `n`.
pub proof fn lemma_nearest_exists(n: nat, k: nat) -> (m: nat)
    requires
        k <= 2040,
        n < 2 * BINADE * pow2(k),
    ensures
        nearest(n as int, m),
    decreases k,
{
    lemma2_to64();
    let b = BINADE as nat;
    let p = pow2(k);
    lemma_pow2_pos(k);
    if n >= b * p {
        let q = n / p;
        let rest = n % p;
        vstd::arithmetic::div_mod::lemma_fundamental_div_mod(n as int, p as int);
        assert(b <= q < 2 * b) by (nonlinear_arith)
            requires
                b * p <= n < 2 * b * p,
                q == n / p,
                p > 0,
        ;
        let up: nat = if 2 * rest > p || (2 * rest == p && q % 2 == 1) {
            1
        } else {
            0
        };
        let r = q + up;
        assert(n == q * p + rest && r * p == q * p + up * p) by (nonlinear_arith)
            requires
                n == p * q + rest,
                r == q + up,
        ;
        lemma_nearest(n as int, r, k);
        k * b + r
    } else if k > 0 {
        lemma_pow2_unfold(k);
        assert(2 * b * pow2((k - 1) as nat) == b * (2 * pow2((k - 1) as nat))) by (nonlinear_arith);
        lemma_nearest_exists(n, (k - 1) as nat)
    } else {
        assert(p == 1);
        assert(b * p == b);
        assert(significand(n) == n && scale(n) == 0);
        assert(n * pow2(0) == n);
        assert forall|d: nat| d < INFINITE && d != n implies #[trigger] distance(
            units_of(d) as int,
            n as int,
        ) > 0 by {
            lemma_units_order(d, n);
            lemma_units_order(n, d);
        }
        n
    }
}

/// `r` is the binary64 sum of `a` and `b`, where the exact sum is not negative.
pub open spec fn is_sum(a: Double, b: Double, r: Double) -> bool {
    !r.is_negative() && nearest(a.units() + b.units(), r.magnitude())
}

/// The binary64 sum of two numbers whose exact sum is finite and not negative.
pub open spec fn sum(a: Double, b: Double) -> Double {
    choose|r: Double| is_sum(a, b, r)
}

/// What fits the description of the sum is the sum.
pub proof fn lemma_sum(a: Double, b: Double, r: Double)
    requires
        is_sum(a, b, r),
    ensures
        sum(a, b) == r,
{
    let s = sum(a, b);
    lemma_nearest_unique(a.units() + b.units(), s.magnitude(), r.magnitude());
}

/// `2^d`, for the shifts that addition needs.
pub(crate) fn power(d: u64) -> (r: u128)
    requires
        d <= 64,
    ensures
        r == pow2(d as nat),
        r <= 0x1_0000_0000_0000_0000,
{
    let mut r: u128 = 1;
    let mut i: u64 = 0;
    proof {
        lemma2_to64();
        lemma2_to64_rest();
    }
    while i < d
        invariant
            i <= d <= 64,
            r == pow2(i as nat),
        decreases d - i,
    {
        proof {
            lemma_pow2_unfold((i + 1) as nat);
            lemma2_to64();
            lemma2_to64_rest();
            if i + 1 < 64 {
                lemma_pow2_strictly_increases((i + 1) as nat, 64);
            }
        }
        r = r * 2;
        i = i + 1;
    }
    proof {
        lemma2_to64();
        lemma2_to64_rest();
        if d < 64 {
            lemma_pow2_strictly_increases(d as nat, 64);
        }
    }
    r
}

/// The magnitude nearest to `n * 2^s` units.
pub(crate) fn round(n: u128, s: u64) -> (r: u64)
    requires
        BINADE <= n < 0x40_0000_0000_0000_0000_0000_0000_0000,
        s <= 1020,
    ensures
        nearest((n * pow2(s as nat)) as int, r as nat),
{
    let mut p: u128 = 1;
    let mut k: u64 = 0;
    proof {
        lemma2_to64();
    }
    while n / p >= 0x20_0000_0000_0000
        invariant
            BINADE <= n < 0x40_0000_0000_0000_0000_0000_0000_0000,
            p == pow2(k as nat),
            1 <= p <= n,
            k <= 70,
            p * BINADE <= n,
            k < 70 || n / p < 0x20_0000_0000_0000,
        decreases 70 - k,
    {
        proof {
            lemma_pow2_unfold((k + 1) as nat);
            assert(n >= 0x20_0000_0000_0000 * p) by (nonlinear_arith)
                requires
                    n / p >= 0x20_0000_0000_0000,
                    p >= 1,
            ;
            if k + 1 == 70 {
                lemma_seventy();
                assert((n as nat) / pow2(70) < 0x20_0000_0000_0000) by (nonlinear_arith)
                    requires
                        n < 0x40_0000_0000_0000_0000_0000_0000_0000,
                        pow2(70) == 0x40_0000_0000_0000_0000,
                ;
            }
        }
        p = p * 2;
        k = k + 1;
    }
    let mut q: u128 = n / p;
    let rest: u128 = n % p;
    proof {
        assert(q >= BINADE) by (nonlinear_arith)
            requires
                p * BINADE <= n,
                q == n / p,
                p >= 1,
        ;
        vstd::arithmetic::div_mod::lemma_fundamental_div_mod(n as int, p as int);
    }
    let ghost q0 = q;
    if rest > p - rest || (rest == p - rest && q % 2 == 1) {
        q = q + 1;
    }
    proof {
        let w = pow2(s as nat);
        lemma_pow2_pos(s as nat);
        lemma_pow2_adds(k as nat, s as nat);
        assert(pow2((k + s) as nat) == p * w);
        assert(q0 * p + rest == n) by (nonlinear_arith)
            requires
                n == p * q0 + rest,
        ;
        assert(q == q0 + 1 ==> q * p == q0 * p + p) by (nonlinear_arith);
        let gap = distance(n as int, q * p);
        assert(2 * gap <= p);
        assert(2 * gap == p ==> q % 2 == 0);
        assert(distance(n * w, (q * p) * w) == gap * w) by {
            if n <= q * p {
                assert((q * p) * w - n * w == gap * w) by (nonlinear_arith)
                    requires
                        gap == q * p - n,
                ;
                assert(n * w <= (q * p) * w) by (nonlinear_arith)
                    requires
                        n <= q * p,
                        w > 0,
                ;
            } else {
                assert(n * w - (q * p) * w == gap * w) by (nonlinear_arith)
                    requires
                        gap == n - q * p,
                ;
                assert(n * w >= (q * p) * w) by (nonlinear_arith)
                    requires
                        n >= q * p,
                        w > 0,
                ;
            }
        }
        assert((q * p) * w == q * (p * w)) by (nonlinear_arith);
        assert(2 * (gap * w) <= p * w) by (nonlinear_arith)
            requires
                2 * gap <= p,
                w > 0,
        ;
        assert(2 * (gap * w) == p * w ==> 2 * gap == p) by (nonlinear_arith)
            requires
                w > 0,
        ;
        assert(n * w >= BINADE * (p * w)) by (nonlinear_arith)
            requires
                p * BINADE <= n,
                w > 0,
        ;
        lemma_nearest(n * w, q as nat, (k + s) as nat);
    }
    (k + s) * BINADE + q as u64
}

proof fn lemma_seventy()
    ensures
        pow2(70) == 0x40_0000_0000_0000_0000,
{
    lemma2_to64();
    lemma2_to64_rest();
    lemma_pow2_adds(64, 6);
}

} // verus!
