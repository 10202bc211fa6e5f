//! Saturating fixed-point arithmetic over `i64`, with `FP` units per 1.0.
//!
//! Every operation floors the exact rational result and then clips it to
//! `[-CAP, CAP]`, so the arithmetic is total and exactly mirrored by the
//! spec functions `fx_add`, `fx_sub`, `fx_mul`, `fx_div` over `int`.

use vstd::prelude::*;
use vstd::arithmetic::div_mod::lemma_fundamental_div_mod;
use vstd::arithmetic::div_mod::lemma_fundamental_div_mod_converse;

verus! {

/// Fixed-point units per 1.0.
pub const FP: i64 = 100_000_000;

/// Largest magnitude any fixed-point value may take; operations saturate here.
pub const CAP: i64 = 1_000_000_000_000_000_000;

/// A value the arithmetic can produce.
pub open spec fn in_range(x: int) -> bool {
    -(CAP as int) <= x <= CAP as int
}

/// Saturate to `[-CAP, CAP]`.
pub open spec fn clip(x: int) -> int {
    if x > CAP as int {
        CAP as int
    } else if x < -(CAP as int) {
        -(CAP as int)
    } else {
        x
    }
}

/// Clipping always lands in the fixed-point domain.
pub broadcast proof fn lemma_clip_in_range(x: int)
    ensures
        in_range(#[trigger] clip(x)),
{
}

/// Floor of the rational `n / d`, for `d != 0`.  For a positive divisor this
/// is Euclidean division; a negative divisor is reduced to that case.
pub open spec fn floor_div(n: int, d: int) -> int {
    if d > 0 {
        n / d
    } else {
        (-n) / (-d)
    }
}

/// Saturating addition.
pub open spec fn fx_add(a: int, b: int) -> int {
    clip(a + b)
}

/// Saturating subtraction.
pub open spec fn fx_sub(a: int, b: int) -> int {
    clip(a - b)
}

/// Saturating fixed-point product: floor(a * b / FP).
pub open spec fn fx_mul(a: int, b: int) -> int {
    clip(floor_div(a * b, FP as int))
}

/// Saturating fixed-point quotient: floor(a * FP / b); 0 when `b == 0`.
pub open spec fn fx_div(a: int, b: int) -> int {
    if b == 0 {
        0
    } else {
        clip(floor_div(a * (FP as int), b))
    }
}

/// The mathematical values of a fixed-point sequence.
pub open spec fn seq_int(s: Seq<i64>) -> Seq<int> {
    s.map_values(|x: i64| x as int)
}

/// Indexing the mathematical view of a sequence reads the value itself.
pub broadcast proof fn lemma_seq_int_index(s: Seq<i64>, i: int)
    requires
        0 <= i < s.len(),
    ensures
        #[trigger] seq_int(s)[i] == s[i] as int,
{
}

/// The mathematical values of a sequence of machine integers.
pub open spec fn seq_usize_int(s: Seq<usize>) -> Seq<int> {
    s.map_values(|x: usize| x as int)
}

/// Indexing the mathematical view of a sequence reads the value itself.
pub broadcast proof fn lemma_seq_usize_int_index(s: Seq<usize>, i: int)
    requires
        0 <= i < s.len(),
    ensures
        #[trigger] seq_usize_int(s)[i] == s[i] as int,
{
}

/// Magnitude of `x`.
pub open spec fn abs_i(x: int) -> int {
    if x < 0 {
        -x
    } else {
        x
    }
}

/// The greater of `a` and `b`.
pub open spec fn max_i(a: int, b: int) -> int {
    if a >= b {
        a
    } else {
        b
    }
}

/// The lesser of `a` and `b`.
pub open spec fn min_i(a: int, b: int) -> int {
    if a <= b {
        a
    } else {
        b
    }
}

/// Magnitude of a fixed-point value.
pub fn abs_fx(a: i64) -> (r: i64)
    requires
        in_range(a as int),
    ensures
        r as int == abs_i(a as int),
        in_range(r as int),
{
    if a < 0 {
        -a
    } else {
        a
    }
}

/// The greater of two fixed-point values.
pub fn max_fx(a: i64, b: i64) -> (r: i64)
    ensures
        r as int == max_i(a as int, b as int),
{
    if a >= b {
        a
    } else {
        b
    }
}

/// The lesser of two fixed-point values.
pub fn min_fx(a: i64, b: i64) -> (r: i64)
    ensures
        r as int == min_i(a as int, b as int),
{
    if a <= b {
        a
    } else {
        b
    }
}

/// An exact multiple divides back to its factor.
pub proof fn lemma_div_exact(b: int, d: int)
    requires
        0 < d,
    ensures
        (b * d) / d == b,
{
    lemma_fundamental_div_mod_converse(b * d, d, b, 0);
}

/// A sum bounded by `b * n` in magnitude divides by `n` into `[-b, b]`.
pub proof fn lemma_div_bounds(s: int, n: int, b: int)
    requires
        0 < n,
        0 <= b,
        -(b * n) <= s <= b * n,
    ensures
        -b <= s / n <= b,
{
    lemma_div_exact(b, n);
    lemma_div_exact(-b, n);
    assert((-b) * n == -(b * n)) by (nonlinear_arith);
    vstd::arithmetic::div_mod::lemma_div_is_ordered(s, b * n, n);
    vstd::arithmetic::div_mod::lemma_div_is_ordered(-(b * n), s, n);
}

/// The fixed-point product grows with its first factor.
pub proof fn lemma_fx_mul_mono_left(a: int, b: int, c: int)
    requires
        0 <= a <= b,
        0 <= c,
    ensures
        fx_mul(a, c) <= fx_mul(b, c),
{
    assert(a * c <= b * c) by (nonlinear_arith)
        requires
            0 <= a <= b,
            0 <= c,
    ;
    vstd::arithmetic::div_mod::lemma_div_is_ordered(a * c, b * c, FP as int);
}

/// Multiplying by a fraction of at most 1 never grows a non-negative
/// value.
pub proof fn lemma_fx_mul_le_identity(x: int, frac: int)
    requires
        0 <= x,
        in_range(x),
        0 <= frac <= FP as int,
    ensures
        0 <= fx_mul(x, frac) <= x,
{
    assert(0 <= x * frac <= x * (FP as int)) by (nonlinear_arith)
        requires
            0 <= x,
            0 <= frac <= FP as int,
    ;
    vstd::arithmetic::div_mod::lemma_div_is_ordered(x * frac, x * (FP as int), FP as int);
    lemma_div_exact(x, FP as int);
    vstd::arithmetic::div_mod::lemma_div_pos_is_pos(x * frac, FP as int);
}

/// A quantity sized as `v / p` of a non-negative price costs at most `v`
/// to fill at that price.
pub proof fn lemma_fx_mul_div_le(v: int, p: int)
    requires
        0 <= v,
        0 <= p,
    ensures
        0 <= fx_mul(fx_div(v, p), p) <= v,
{
    if p == 0 {
        assert(fx_div(v, 0) == 0);
        assert(0 * 0 == 0) by (nonlinear_arith);
        vstd::arithmetic::div_mod::lemma_div_of0(FP as int);
    } else {
        let q0 = (v * (FP as int)) / p;
        assert(0 <= v * (FP as int)) by (nonlinear_arith)
            requires
                0 <= v,
        ;
        vstd::arithmetic::div_mod::lemma_div_pos_is_pos(v * (FP as int), p);
        let qty = clip(q0);
        assert(0 <= qty <= q0);
        // the sized quantity times the price stays below v * FP
        assert(q0 * p <= v * (FP as int)) by {
            lemma_fundamental_div_mod(v * (FP as int), p);
            assert(q0 * p <= p * q0 + (v * (FP as int)) % p) by (nonlinear_arith)
                requires
                    0 <= (v * (FP as int)) % p,
            ;
        }
        assert(qty * p <= q0 * p) by (nonlinear_arith)
            requires
                0 <= qty <= q0,
                0 <= p,
        ;
        assert(0 <= qty * p) by (nonlinear_arith)
            requires
                0 <= qty,
                0 <= p,
        ;
        vstd::arithmetic::div_mod::lemma_div_is_ordered(qty * p, v * (FP as int), FP as int);
        lemma_div_exact(v, FP as int);
        vstd::arithmetic::div_mod::lemma_div_pos_is_pos(qty * p, FP as int);
    }
}

/// The integer square root: the greatest `r` with `r * r <= x`, for `x >= 0`.
pub open spec fn isqrt_spec(x: int) -> int
    decreases x,
{
    if x <= 0 {
        0
    } else {
        let p = isqrt_spec(x - 1);
        if (p + 1) * (p + 1) <= x {
            p + 1
        } else {
            p
        }
    }
}

/// `r` is the integer square root of `x`.
pub open spec fn is_isqrt(x: int, r: int) -> bool {
    0 <= r && r * r <= x && x < (r + 1) * (r + 1)
}

/// `isqrt_spec` satisfies the square-root characterisation.
pub proof fn lemma_isqrt_spec_is_isqrt(x: int)
    requires
        0 <= x,
    ensures
        is_isqrt(x, isqrt_spec(x)),
    decreases x,
{
    if x == 0 {
    } else {
        lemma_isqrt_spec_is_isqrt(x - 1);
        let p = isqrt_spec(x - 1);
        assert(p * p <= x - 1 && x - 1 < (p + 1) * (p + 1));
        if (p + 1) * (p + 1) <= x {
            assert((p + 1 + 1) * (p + 1 + 1) > x) by (nonlinear_arith)
                requires
                    x - 1 < (p + 1) * (p + 1),
                    0 <= p,
            ;
        }
    }
}

/// Any two integer square roots of the same value agree.
pub proof fn lemma_isqrt_unique(x: int, r1: int, r2: int)
    requires
        is_isqrt(x, r1),
        is_isqrt(x, r2),
    ensures
        r1 == r2,
{
    assert(r1 == r2) by (nonlinear_arith)
        requires
            0 <= r1 && r1 * r1 <= x && x < (r1 + 1) * (r1 + 1),
            0 <= r2 && r2 * r2 <= x && x < (r2 + 1) * (r2 + 1),
    ;
}

/// Floor division is invariant under scaling numerator and denominator by
/// the same positive factor.
pub proof fn lemma_floor_div_scale(k: int, n: int, d: int)
    requires
        0 < k,
        d != 0,
    ensures
        floor_div(k * n, k * d) == floor_div(n, d),
{
    if d > 0 {
        lemma_euclid_div_scale(k, n, d);
        assert(k * d > 0) by (nonlinear_arith)
            requires
                0 < k,
                0 < d,
        ;
    } else {
        lemma_euclid_div_scale(k, -n, -d);
        assert(k * d < 0 && -(k * n) == k * (-n) && -(k * d) == k * (-d)) by (nonlinear_arith)
            requires
                0 < k,
                d < 0,
        ;
    }
}

/// Euclidean division by a positive divisor is invariant under scaling by a
/// positive factor.
proof fn lemma_euclid_div_scale(k: int, n: int, d: int)
    requires
        0 < k,
        0 < d,
    ensures
        (k * n) / (k * d) == n / d,
{
    let q = n / d;
    let r = n % d;
    lemma_fundamental_div_mod(n, d);
    assert(n == d * q + r && 0 <= r < d);
    assert(k * n == q * (k * d) + k * r && 0 <= k * r < k * d) by (nonlinear_arith)
        requires
            n == d * q + r,
            0 <= r < d,
            0 < k,
    ;
    lemma_fundamental_div_mod_converse(k * n, k * d, q, k * r);
}

/// The integer square root, computed by binary search on the root.
pub fn isqrt_u128(x: u128) -> (r: u128)
    ensures
        r as int == isqrt_spec(x as int),
        is_isqrt(x as int, r as int),
{
    let mut lo: u128 = 0;
    let mut hi: u128 = 0x1_0000_0000_0000_0000;
    proof {
        assert((x as int) < (hi as int) * (hi as int)) by (nonlinear_arith)
            requires
                hi as int == 0x1_0000_0000_0000_0000,
                x as int <= 0xffff_ffff_ffff_ffff_ffff_ffff_ffff_ffff,
        ;
    }
    while lo + 1 < hi
        invariant
            0 <= lo < hi,
            hi <= 0x1_0000_0000_0000_0000,
            (lo as int) * (lo as int) <= x as int,
            (x as int) < (hi as int) * (hi as int),
        decreases hi - lo,
    {
        let mid: u128 = lo + (hi - lo) / 2;
        proof {
            assert(lo < mid < hi);
            assert((mid as int) * (mid as int)
                <= 0xffff_ffff_ffff_ffff_ffff_ffff_ffff_ffff) by (nonlinear_arith)
                requires
                    mid as int <= 0xffff_ffff_ffff_ffff,
                    0 <= mid as int,
            ;
        }
        if mid * mid <= x {
            lo = mid;
        } else {
            hi = mid;
        }
    }
    proof {
        assert(hi == lo + 1);
        lemma_isqrt_spec_is_isqrt(x as int);
        lemma_isqrt_unique(x as int, lo as int, isqrt_spec(x as int));
    }
    lo
}

/// Clip a wide intermediate back into the `i64` fixed-point domain.
pub fn clip_i128(x: i128) -> (r: i64)
    ensures
        r as int == clip(x as int),
{
    if x > CAP as i128 {
        CAP
    } else if x < -(CAP as i128) {
        -CAP
    } else {
        x as i64
    }
}

/// Floor division of wide intermediates; the divisor must be positive and the
/// dividend must stay clear of `i128::MIN` so its negation is representable.
pub fn div_floor_i128(n: i128, d: i128) -> (q: i128)
    requires
        0 < d,
        -0x4000_0000_0000_0000_0000_0000_0000_0000 < n,
    ensures
        q == n as int / d as int,
{
    if n >= 0 {
        let un: u128 = n as u128;
        let ud: u128 = d as u128;
        let uq: u128 = un / ud;
        proof {
            assert(un as int == n as int);
            assert(ud as int == d as int);
            assert(uq as int == n as int / d as int);
            assert(n as int / d as int <= n as int) by {
                vstd::arithmetic::div_mod::lemma_div_is_ordered_by_denominator(n as int, 1, d as int);
            }
            assert(n as int / d as int >= 0) by {
                vstd::arithmetic::div_mod::lemma_div_pos_is_pos(n as int, d as int);
            }
        }
        uq as i128
    } else {
        let m: u128 = (-n) as u128;
        let ud: u128 = d as u128;
        let uq: u128 = (m - 1) / ud + 1;
        proof {
            let mi = m as int;
            let di = d as int;
            let qi = (mi - 1) / di;
            let ri = (mi - 1) % di;
            lemma_fundamental_div_mod(mi - 1, di);
            assert(mi - 1 == di * qi + ri);
            assert(0 <= ri < di);
            // n == -(mi) == (-(qi + 1)) * di + (di - 1 - ri), with the
            // remainder in [0, di), so the Euclidean quotient of n by di
            // is -(qi + 1).
            assert(n as int == (-(qi + 1)) * di + (di - 1 - ri)) by (nonlinear_arith)
                requires
                    n as int == -mi,
                    mi - 1 == di * qi + ri,
            ;
            lemma_fundamental_div_mod_converse(n as int, di, -(qi + 1), di - 1 - ri);
            assert(n as int / di == -(qi + 1));
            assert(qi >= 0) by {
                vstd::arithmetic::div_mod::lemma_div_pos_is_pos(mi - 1, di);
            }
            assert(qi <= mi - 1) by {
                vstd::arithmetic::div_mod::lemma_div_is_ordered_by_denominator(mi - 1, 1, di);
            }
            assert(uq as int == qi + 1);
        }
        -(uq as i128)
    }
}

/// Saturating fixed-point addition.
pub fn add_fx(a: i64, b: i64) -> (r: i64)
    requires
        in_range(a as int),
        in_range(b as int),
    ensures
        r as int == fx_add(a as int, b as int),
        in_range(r as int),
{
    clip_i128(a as i128 + b as i128)
}

/// Saturating fixed-point subtraction.
pub fn sub_fx(a: i64, b: i64) -> (r: i64)
    requires
        in_range(a as int),
        in_range(b as int),
    ensures
        r as int == fx_sub(a as int, b as int),
        in_range(r as int),
{
    clip_i128(a as i128 - b as i128)
}

/// Saturating fixed-point multiplication: floor(a * b / FP).
pub fn mul_fx(a: i64, b: i64) -> (r: i64)
    requires
        in_range(a as int),
        in_range(b as int),
    ensures
        r as int == fx_mul(a as int, b as int),
        in_range(r as int),
{
    proof {
        assert((a as int) * (b as int) <= (CAP as int) * (CAP as int)
            && -((CAP as int) * (CAP as int)) <= (a as int) * (b as int)) by (nonlinear_arith)
            requires
                in_range(a as int),
                in_range(b as int),
        ;
    }
    let p: i128 = a as i128 * b as i128;
    let q: i128 = div_floor_i128(p, FP as i128);
    clip_i128(q)
}

/// Saturating fixed-point division: floor(a * FP / b); 0 when `b == 0`.
pub fn div_fx(a: i64, b: i64) -> (r: i64)
    requires
        in_range(a as int),
        in_range(b as int),
    ensures
        r as int == fx_div(a as int, b as int),
        in_range(r as int),
{
    if b == 0 {
        0
    } else {
        proof {
            assert((a as int) * (FP as int) <= (CAP as int) * (FP as int)
                && -((CAP as int) * (FP as int)) <= (a as int) * (FP as int)) by (nonlinear_arith)
                requires
                    in_range(a as int),
            ;
        }
        let n: i128 = a as i128 * FP as i128;
        let q: i128 = if b > 0 {
            div_floor_i128(n, b as i128)
        } else {
            div_floor_i128(-n, -(b as i128))
        };
        clip_i128(q)
    }
}

} // verus!
