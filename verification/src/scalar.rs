//! Fixed-point scalars.
//!
//! A scalar is a signed integer counting units of `1 / ONE`: the raw value
//! `r` stands for the rational number `r / ONE`. Every scalar that the
//! library stores lies within `LIMIT` of zero, which leaves enough headroom
//! for exact intermediate products in 128-bit arithmetic.

use vstd::prelude::*;
use vstd::arithmetic::div_mod::lemma_fundamental_div_mod;
use vstd::arithmetic::div_mod::lemma_fundamental_div_mod_converse;

verus! {

/// A fixed-point number with sixteen fractional bits.
pub type Scalar = i64;

/// The raw value of the number one.
pub const ONE: i64 = 65536;

/// The largest magnitude of a raw value that the library stores.
pub const LIMIT: i64 = 0x100_0000_0000;

/// The square of `LIMIT`.
pub const LIMIT_SQ: i128 = 0x1_0000_0000_0000_0000_0000;

/// Whether a raw value is one the library stores.
pub open spec fn in_range(x: int) -> bool {
    -LIMIT <= x <= LIMIT
}

/// The raw value of the product of two scalars, rounded down.
pub open spec fn mul_raw(a: int, b: int) -> int {
    (a * b) / (ONE as int)
}

/// The rational number `num / den`, rounded down.
pub open spec fn ratio(num: int, den: int) -> int
    recommends
        den != 0,
{
    if den > 0 {
        num / den
    } else {
        (-num) / (-den)
    }
}

/// The raw value of the quotient of two scalars, rounded down.
pub open spec fn div_raw(a: int, b: int) -> int
    recommends
        b != 0,
{
    ratio(a * ONE, b)
}

/// The integer part of a scalar, rounded toward zero.
pub open spec fn trunc_raw(a: int) -> int {
    if a >= 0 {
        a / (ONE as int)
    } else {
        -((-a) / (ONE as int))
    }
}

/// Whether `r` is the integer square root of `n`: the largest number whose
/// square is at most `n`.
pub open spec fn is_sqrt(n: int, r: int) -> bool {
    0 <= r && r * r <= n < (r + 1) * (r + 1)
}

/// The integer square root of `n`.
pub open spec fn sqrt_floor(n: int) -> int {
    choose|r: int| is_sqrt(n, r)
}

/// Division rounded toward negative infinity, for a positive divisor.
pub fn floor_div(a: i128, b: i128) -> (q: i128)
    requires
        b > 0,
        a > i128::MIN,
    ensures
        q == a / b,
{
    if a >= 0 {
        a / b
    } else {
        let n: i128 = -a;
        let q: i128 = n / b;
        let r: i128 = n % b;
        proof {
            lemma_fundamental_div_mod(n as int, b as int);
            assert(b * q == q * b) by (nonlinear_arith);
        }
        if r == 0 {
            proof {
                assert(a == (-q) * b + 0) by (nonlinear_arith)
                    requires
                        a == -n,
                        n == q * b + r,
                        r == 0,
                ;
                lemma_fundamental_div_mod_converse(a as int, b as int, -q as int, 0);
            }
            -q
        } else {
            proof {
                assert(a == (-q - 1) * b + (b - r)) by (nonlinear_arith)
                    requires
                        a == -n,
                        n == q * b + r,
                ;
                lemma_fundamental_div_mod_converse(a as int, b as int, -q - 1, b - r);
            }
            -q - 1
        }
    }
}

/// The rational number `num / den`, rounded down.
pub fn floor_ratio(num: i128, den: i128) -> (q: i128)
    requires
        den != 0,
        num > i128::MIN,
        den > i128::MIN,
    ensures
        q == ratio(num as int, den as int),
{
    if den > 0 {
        floor_div(num, den)
    } else {
        floor_div(-num, -den)
    }
}

/// A wide value multiplied by the raw value of one.
pub fn times_one(x: i128) -> (r: i128)
    requires
        -0x1_0000_0000_0000_0000_0000_0000 <= x <= 0x1_0000_0000_0000_0000_0000_0000,
    ensures
        r == x * ONE,
{
    x * 65536
}

/// Keeps a wide value if it is one the library stores.
pub fn narrow(x: i128) -> (r: Option<Scalar>)
    ensures
        r == (if in_range(x as int) { Some(x as i64) } else { None }),
{
    if -(LIMIT as i128) <= x && x <= LIMIT as i128 {
        Some(x as i64)
    } else {
        None
    }
}

/// The scalar that stands for a whole number.
pub fn scalar_from_int(n: i32) -> (r: Option<Scalar>)
    ensures
        r == (if in_range(n * ONE) { Some((n * ONE) as i64) } else { None }),
{
    narrow(times_one(n as i128))
}

/// The scalar nearest below `num / den`.
pub fn scalar_from_ratio(num: i32, den: i32) -> (r: Option<Scalar>)
    ensures
        r == (if den != 0 && in_range(div_raw(num as int, den as int)) {
            Some(div_raw(num as int, den as int) as i64)
        } else {
            None
        }),
{
    if den == 0 {
        None
    } else {
        narrow(floor_ratio(times_one(num as i128), den as i128))
    }
}

/// The product of two scalars, rounded down; `None` if it leaves the range.
pub fn scalar_mul(a: Scalar, b: Scalar) -> (r: Option<Scalar>)
    requires
        in_range(a as int),
        in_range(b as int),
    ensures
        r == (if in_range(mul_raw(a as int, b as int)) {
            Some(mul_raw(a as int, b as int) as i64)
        } else {
            None
        }),
{
    proof {
        lemma_product_bound(a as int, b as int, LIMIT as int, LIMIT as int);
    }
    let wide: i128 = (a as i128) * (b as i128);
    narrow(floor_div(wide, ONE as i128))
}

/// The quotient of two scalars, rounded down; `None` if the divisor is zero
/// or the quotient leaves the range.
pub fn scalar_div(a: Scalar, b: Scalar) -> (r: Option<Scalar>)
    ensures
        r == (if b != 0 && in_range(div_raw(a as int, b as int)) {
            Some(div_raw(a as int, b as int) as i64)
        } else {
            None
        }),
{
    if b == 0 {
        None
    } else {
        narrow(floor_ratio(times_one(a as i128), b as i128))
    }
}

/// The integer part of a scalar, rounded toward zero.
pub fn scalar_trunc(a: Scalar) -> (r: i32)
    requires
        in_range(a as int),
    ensures
        r == trunc_raw(a as int),
{
    (a / ONE) as i32
}

/// The integer square root of `n`.
pub fn isqrt(n: u128) -> (r: u64)
    ensures
        is_sqrt(n as int, r as int),
        r == sqrt_floor(n as int),
{
    let mut lo: u128 = 0;
    let mut hi: u128 = 0x1_0000_0000_0000_0000;
    assert(0x1_0000_0000_0000_0000int * 0x1_0000_0000_0000_0000int
        == 0x1_0000_0000_0000_0000_0000_0000_0000_0000int) by (nonlinear_arith);
    while hi - lo > 1
        invariant
            lo < hi <= 0x1_0000_0000_0000_0000,
            lo * lo <= n < hi * hi,
        decreases hi - lo,
    {
        let mid: u128 = lo + (hi - lo) / 2;
        assert(mid * mid <= 0xffff_ffff_ffff_ffff * 0xffff_ffff_ffff_ffff) by (nonlinear_arith)
            requires
                0 <= mid <= 0xffff_ffff_ffff_ffff,
        ;
        assert(0xffff_ffff_ffff_ffffint * 0xffff_ffff_ffff_ffffint
            < 0x1_0000_0000_0000_0000_0000_0000_0000_0000int) by (nonlinear_arith);
        if mid * mid <= n {
            lo = mid;
        } else {
            hi = mid;
        }
    }
    proof {
        lemma_sqrt_unique(n as int, lo as int, sqrt_floor(n as int));
    }
    lo as u64
}

/// A number has at most one integer square root.
pub proof fn lemma_sqrt_unique(n: int, r: int, s: int)
    requires
        is_sqrt(n, r),
    ensures
        is_sqrt(n, sqrt_floor(n)),
        is_sqrt(n, s) ==> r == s,
{
    if is_sqrt(n, s) {
        if r < s {
            assert((r + 1) * (r + 1) <= s * s) by (nonlinear_arith)
                requires
                    0 <= r + 1 <= s,
            ;
        }
        if s < r {
            assert((s + 1) * (s + 1) <= r * r) by (nonlinear_arith)
                requires
                    0 <= s + 1 <= r,
            ;
        }
    }
}

/// `LIMIT_SQ` is the square of `LIMIT`.
pub proof fn lemma_limit_square()
    ensures
        LIMIT * LIMIT == LIMIT_SQ,
{
    assert(0x100_0000_0000int * 0x100_0000_0000int == 0x1_0000_0000_0000_0000_0000int)
        by (nonlinear_arith);
}

/// A product of bounded factors is bounded by the product of the bounds.
pub proof fn lemma_product_bound(a: int, b: int, m: int, n: int)
    requires
        -m <= a <= m,
        -n <= b <= n,
    ensures
        -(m * n) <= a * b <= m * n,
{
    assert(-(m * n) <= a * b <= m * n) by (nonlinear_arith)
        requires
            -m <= a <= m,
            -n <= b <= n,
    ;
}

} // verus!
