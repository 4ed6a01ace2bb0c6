//! Integer helpers shared by the fixed-point arithmetic of the crate.

use vstd::prelude::*;

verus! {

/// Floor of the square root of `x`, by counting up from zero.
pub open spec fn sqrt_floor(x: nat) -> nat
    decreases x,
{
    if x == 0 {
        0
    } else {
        let r = sqrt_floor((x - 1) as nat);
        if (r + 1) * (r + 1) <= x {
            r + 1
        } else {
            r
        }
    }
}

/// `r` is the floor of the square root of `x`.
pub open spec fn is_sqrt_floor(x: int, r: int) -> bool {
    0 <= r && r * r <= x && x < (r + 1) * (r + 1)
}

/// Squaring keeps the order of non-negative numbers.
pub proof fn lemma_square_monotone(a: int, b: int)
    by (nonlinear_arith)
    requires
        0 <= a <= b,
    ensures
        a * a <= b * b,
{
}

/// `sqrt_floor(x)` squares to at most `x`, and its successor squares to more.
pub proof fn lemma_sqrt_floor_bounds(x: nat)
    ensures
        is_sqrt_floor(x as int, sqrt_floor(x) as int),
    decreases x,
{
    if x > 0 {
        lemma_sqrt_floor_bounds((x - 1) as nat);
        let r = sqrt_floor((x - 1) as nat) as int;
        assert((r + 2) * (r + 2) > (r + 1) * (r + 1)) by (nonlinear_arith)
            requires
                0 <= r,
        ;
    }
}

/// Only one number lies between the two bounds of `is_sqrt_floor`.
pub proof fn lemma_sqrt_floor_unique(x: nat, r: int)
    requires
        is_sqrt_floor(x as int, r),
    ensures
        r == sqrt_floor(x),
{
    lemma_sqrt_floor_bounds(x);
    let s = sqrt_floor(x) as int;
    if r < s {
        lemma_square_monotone(r + 1, s);
    } else if s < r {
        lemma_square_monotone(s + 1, r);
    }
}

/// The square root never decreases as its argument grows.
pub proof fn lemma_sqrt_floor_monotone(x: nat, y: nat)
    requires
        x <= y,
    ensures
        sqrt_floor(x) <= sqrt_floor(y),
{
    lemma_sqrt_floor_bounds(x);
    lemma_sqrt_floor_bounds(y);
    let r = sqrt_floor(x) as int;
    let s = sqrt_floor(y) as int;
    if s < r {
        lemma_square_monotone(s + 1, r);
    }
}

/// A number whose square is at most `x` is at most the square root of `x`.
pub proof fn lemma_sqrt_floor_at_least(x: nat, r: int)
    requires
        0 <= r,
        r * r <= x,
    ensures
        r <= sqrt_floor(x),
{
    lemma_sqrt_floor_bounds(x);
    let s = sqrt_floor(x) as int;
    if s < r {
        lemma_square_monotone(s + 1, r);
    }
}

/// Floor of the square root of `x`, found by bisection.
pub fn isqrt(x: u128) -> (r: u64)
    ensures
        r == sqrt_floor(x as nat),
{
    let mut lo: u128 = 0;
    let mut hi: u128 = 0x1_0000_0000_0000_0000;
    assert(hi * hi > x) by (nonlinear_arith)
        requires
            hi == 0x1_0000_0000_0000_0000u128,
            x <= u128::MAX,
    ;
    while hi - lo > 1
        invariant
            lo < hi <= 0x1_0000_0000_0000_0000,
            lo * lo <= x,
            x < hi * hi,
        decreases hi - lo,
    {
        let mid: u128 = lo + (hi - lo) / 2;
        assert(mid * mid <= u128::MAX) by (nonlinear_arith)
            requires
                mid < 0x1_0000_0000_0000_0000u128,
        ;
        if mid * mid <= x {
            lo = mid;
        } else {
            hi = mid;
        }
    }
    proof {
        lemma_sqrt_floor_unique(x as nat, lo as int);
    }
    lo as u64
}

/// The absolute value of `x`.
pub open spec fn magnitude(x: int) -> int {
    if x >= 0 {
        x
    } else {
        -x
    }
}

/// The quotient of `n` by `d`, rounded toward zero.
pub open spec fn trunc_div(n: int, d: int) -> int {
    if d > 0 {
        if n >= 0 {
            n / d
        } else {
            -((-n) / d)
        }
    } else {
        if n >= 0 {
            -(n / (-d))
        } else {
            (-n) / (-d)
        }
    }
}

/// `x`, raised to `lo` if below it, then lowered to `hi` if above it.
pub open spec fn clamp(x: int, lo: int, hi: int) -> int {
    let raised = if x >= lo {
        x
    } else {
        lo
    };
    if raised <= hi {
        raised
    } else {
        hi
    }
}

/// `x`, held within the range of a 64-bit signed word.
pub open spec fn sat_i64(x: int) -> int {
    clamp(x, i64::MIN as int, i64::MAX as int)
}

/// Floor division by a positive divisor, for a negative dividend, in terms of
/// division of non-negative numbers.
pub proof fn lemma_floor_div_negative(n: int, d: int)
    by (nonlinear_arith)
    requires
        n < 0,
        d > 0,
    ensures
        n / d == -((-n + d - 1) / d),
{
    let q = (-n + d - 1) / d;
    let r = (-n + d - 1) % d;
    assert(-n + d - 1 == q * d + r && 0 <= r < d);
    assert(n == (-q) * d + (d - 1 - r));
    assert(0 <= d - 1 - r < d);
    assert(((-q) * d + (d - 1 - r)) / d == -q);
}

/// A quotient is at least `b` exactly when the dividend is at least `b`
/// times the divisor.
pub proof fn lemma_quotient_reaches(a: int, q: int, b: int)
    by (nonlinear_arith)
    requires
        0 <= a,
        0 < q,
        0 <= b,
    ensures
        a >= b * q <==> a / q >= b,
        0 <= a / q <= a,
{
    let k = a / q;
    let r = a % q;
    assert(a == k * q + r && 0 <= r < q);
}

/// The absolute value of a machine integer.
pub fn magnitude_of(x: i128) -> (m: u128)
    requires
        x > i128::MIN,
    ensures
        m == magnitude(x as int),
{
    if x >= 0 {
        x as u128
    } else {
        (-x) as u128
    }
}

/// The quotient of `n` by `d`, rounded toward zero.
pub fn div_toward_zero(n: i128, d: i128) -> (q: i128)
    requires
        d != 0,
        n > i128::MIN,
        d > i128::MIN,
    ensures
        q == trunc_div(n as int, d as int),
{
    let a: u128 = magnitude_of(n);
    let b: u128 = magnitude_of(d);
    let m: u128 = a / b;
    proof {
        lemma_quotient_reaches(a as int, b as int, 0);
    }
    if (n >= 0) == (d > 0) {
        m as i128
    } else {
        -(m as i128)
    }
}

/// The quotient of `n` by a positive `d`, rounded down.
pub fn div_floor(n: i128, d: i128) -> (q: i128)
    requires
        d > 0,
        n > i128::MIN,
    ensures
        q == n as int / d as int,
{
    if n >= 0 {
        proof {
            lemma_quotient_reaches(n as int, d as int, 0);
        }
        ((n as u128) / (d as u128)) as i128
    } else {
        let m: u128 = (-n) as u128;
        proof {
            lemma_floor_div_negative(n as int, d as int);
            assert((m + d - 1) / (d as int) <= m) by (nonlinear_arith)
                requires
                    m >= 1,
                    d >= 1,
            ;
        }
        -(((m + (d as u128) - 1) / (d as u128)) as i128)
    }
}

/// `x`, raised to `lo` if below it, then lowered to `hi` if above it.
pub fn clamp_wide(x: i128, lo: i128, hi: i128) -> (r: i128)
    ensures
        r == clamp(x as int, lo as int, hi as int),
{
    let raised: i128 = if x >= lo {
        x
    } else {
        lo
    };
    if raised <= hi {
        raised
    } else {
        hi
    }
}

/// `x`, held within the range of a 64-bit signed word.
pub fn saturate_i64(x: i128) -> (r: i64)
    ensures
        r == sat_i64(x as int),
{
    if x < i64::MIN as i128 {
        i64::MIN
    } else if x > i64::MAX as i128 {
        i64::MAX
    } else {
        x as i64
    }
}

/// The quotient of `num * factor` by `den`, rounded toward zero and held
/// within `-bound ..= bound`, computed without forming a product that does
/// not fit the machine.
pub fn scaled_quotient(num: i128, factor: u64, den: i128, bound: u64) -> (q: i128)
    requires
        den != 0,
        -0x1_0000_0000_0000_0000_0000_0000 <= num <= 0x1_0000_0000_0000_0000_0000_0000,
        -0x1_0000_0000_0000_0000 <= den <= 0x1_0000_0000_0000_0000,
    ensures
        q == clamp(trunc_div(num * factor, den as int), -(bound as int), bound as int),
{
    let p: u128 = magnitude_of(num);
    let d: u128 = magnitude_of(den);
    assert(bound * d <= 0xffff_ffff_ffff_ffff * 0x1_0000_0000_0000_0000) by (nonlinear_arith)
        requires
            bound <= 0xffff_ffff_ffff_ffff,
            d <= 0x1_0000_0000_0000_0000,
    ;
    let reach: u128 = (bound as u128) * d;
    assert(magnitude(num * factor) == p * factor && (num * factor >= 0 <==> (num >= 0 || factor
        == 0))) by (nonlinear_arith)
        requires
            p == magnitude(num as int),
            factor >= 0,
    ;
    proof {
        lemma_quotient_reaches(p * factor, d as int, bound as int);
    }
    let m: u128 = match p.checked_mul(factor as u128) {
        None => bound as u128,
        Some(product) => if product >= reach {
            bound as u128
        } else {
            product / d
        },
    };
    if (num >= 0) == (den > 0) {
        m as i128
    } else {
        -(m as i128)
    }
}

} // verus!
