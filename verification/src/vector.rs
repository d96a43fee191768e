//! Three- and four-component fixed-point vectors.
//!
//! Executable vectors hold raw scalars. Their views are vectors of
//! mathematical integers, on which the exact operations are defined.

use vstd::prelude::*;
use crate::scalar::{
    div_raw, floor_div, floor_ratio, in_range, is_sqrt, isqrt, lemma_limit_square,
    lemma_product_bound, narrow, sqrt_floor, times_one, Scalar, LIMIT, LIMIT_SQ, ONE,
};

verus! {

/// A vector of three mathematical integers.
pub struct V3 {
    pub x: int,
    pub y: int,
    pub z: int,
}

/// A vector of four mathematical integers.
pub struct V4 {
    pub x: int,
    pub y: int,
    pub z: int,
    pub w: int,
}

impl V3 {
    /// The sum of two vectors.
    pub open spec fn plus(self, o: V3) -> V3 {
        V3 { x: self.x + o.x, y: self.y + o.y, z: self.z + o.z }
    }

    /// The difference of two vectors.
    pub open spec fn minus(self, o: V3) -> V3 {
        V3 { x: self.x - o.x, y: self.y - o.y, z: self.z - o.z }
    }

    /// Every component multiplied by the integer `k`.
    pub open spec fn times(self, k: int) -> V3 {
        V3 { x: self.x * k, y: self.y * k, z: self.z * k }
    }

    /// Every component divided by the positive integer `k`, rounded down.
    pub open spec fn over(self, k: int) -> V3 {
        V3 { x: self.x / k, y: self.y / k, z: self.z / k }
    }

    /// The exact dot product, in units of `1 / (ONE * ONE)`.
    pub open spec fn dot(self, o: V3) -> int {
        self.x * o.x + self.y * o.y + self.z * o.z
    }

    /// The exact cross product, in units of `1 / (ONE * ONE)`.
    pub open spec fn cross(self, o: V3) -> V3 {
        V3 {
            x: self.y * o.z - self.z * o.y,
            y: self.z * o.x - self.x * o.z,
            z: self.x * o.y - self.y * o.x,
        }
    }

    /// The exact squared length, in units of `1 / (ONE * ONE)`.
    pub open spec fn norm2(self) -> int {
        self.dot(self)
    }

    /// Whether every component lies within `m` of zero.
    pub open spec fn bounded(self, m: int) -> bool {
        &&& -m <= self.x <= m
        &&& -m <= self.y <= m
        &&& -m <= self.z <= m
    }

    /// Whether this is the zero vector.
    pub open spec fn is_zero(self) -> bool {
        self.x == 0 && self.y == 0 && self.z == 0
    }
}

/// Three fixed-point coordinates.
#[derive(Clone, Copy, Debug, PartialEq, Eq, Structural)]
pub struct Vec3 {
    pub x: Scalar,
    pub y: Scalar,
    pub z: Scalar,
}

/// Four fixed-point coordinates: a point or direction in homogeneous form.
#[derive(Clone, Copy, Debug, PartialEq, Eq, Structural)]
pub struct Vec4 {
    pub x: Scalar,
    pub y: Scalar,
    pub z: Scalar,
    pub w: Scalar,
}

impl View for Vec3 {
    type V = V3;

    open spec fn view(&self) -> V3 {
        V3 { x: self.x as int, y: self.y as int, z: self.z as int }
    }
}

impl View for Vec4 {
    type V = V4;

    open spec fn view(&self) -> V4 {
        V4 { x: self.x as int, y: self.y as int, z: self.z as int, w: self.w as int }
    }
}

impl Vec3 {
    /// Whether every coordinate is one the library stores.
    pub open spec fn wf(self) -> bool {
        self@.bounded(LIMIT as int)
    }

    /// Tests whether every coordinate is one the library stores.
    pub fn is_wf(&self) -> (r: bool)
        ensures
            r == self.wf(),
    {
        -LIMIT <= self.x && self.x <= LIMIT && -LIMIT <= self.y && self.y <= LIMIT && -LIMIT
            <= self.z && self.z <= LIMIT
    }
}

impl Vec4 {
    /// Whether every coordinate is one the library stores.
    pub open spec fn wf(self) -> bool {
        &&& in_range(self.x as int)
        &&& in_range(self.y as int)
        &&& in_range(self.z as int)
        &&& in_range(self.w as int)
    }

    /// Tests whether every coordinate is one the library stores.
    pub fn is_wf(&self) -> (r: bool)
        ensures
            r == self.wf(),
    {
        -LIMIT <= self.x && self.x <= LIMIT && -LIMIT <= self.y && self.y <= LIMIT && -LIMIT
            <= self.z && self.z <= LIMIT && -LIMIT <= self.w && self.w <= LIMIT
    }
}

/// The stored vector with the given integer coordinates, if they are in range.
pub open spec fn stored3(v: V3) -> Option<Vec3> {
    if v.bounded(LIMIT as int) {
        Some(Vec3 { x: v.x as i64, y: v.y as i64, z: v.z as i64 })
    } else {
        None
    }
}

/// Keeps three wide coordinates if all of them are in range.
pub fn narrow3(x: i128, y: i128, z: i128) -> (r: Option<Vec3>)
    ensures
        r == stored3(V3 { x: x as int, y: y as int, z: z as int }),
{
    match (narrow(x), narrow(y), narrow(z)) {
        (Some(x), Some(y), Some(z)) => Some(Vec3 { x, y, z }),
        _ => None,
    }
}

/// The sum of two vectors; `None` if a coordinate leaves the range.
pub fn vec_add_vec(a: Vec3, b: Vec3) -> (r: Option<Vec3>)
    ensures
        r == stored3(a@.plus(b@)),
{
    narrow3(a.x as i128 + b.x as i128, a.y as i128 + b.y as i128, a.z as i128 + b.z as i128)
}

/// The difference of two vectors; `None` if a coordinate leaves the range.
pub fn vec_sub_vec(a: Vec3, b: Vec3) -> (r: Option<Vec3>)
    ensures
        r == stored3(a@.minus(b@)),
{
    narrow3(a.x as i128 - b.x as i128, a.y as i128 - b.y as i128, a.z as i128 - b.z as i128)
}

/// A vector with `s` added to every coordinate; `None` if one leaves the range.
pub fn vec_add_scalar(a: Vec3, s: Scalar) -> (r: Option<Vec3>)
    ensures
        r == stored3(a@.plus(V3 { x: s as int, y: s as int, z: s as int })),
{
    narrow3(a.x as i128 + s as i128, a.y as i128 + s as i128, a.z as i128 + s as i128)
}

/// The exact product of two raw values.
pub fn wide_mul(a: i64, b: i64) -> (r: i128)
    requires
        -2 * LIMIT <= a <= 2 * LIMIT,
        -2 * LIMIT <= b <= 2 * LIMIT,
    ensures
        r == a * b,
        -4 * LIMIT_SQ <= r <= 4 * LIMIT_SQ,
{
    proof {
        lemma_product_bound(a as int, b as int, 2 * LIMIT, 2 * LIMIT);
        lemma_limit_square();
        assert((2 * LIMIT) * (2 * LIMIT) == 4 * (LIMIT * LIMIT)) by (nonlinear_arith);
    }
    (a as i128) * (b as i128)
}

/// A vector with every coordinate multiplied by `s`, rounded down; `None` if
/// one leaves the range.
pub fn vec_mul_scalar(a: Vec3, s: Scalar) -> (r: Option<Vec3>)
    requires
        a.wf(),
        in_range(s as int),
    ensures
        r == stored3(a@.times(s as int).over(ONE as int)),
{
    narrow3(
        floor_div(wide_mul(a.x, s), ONE as i128),
        floor_div(wide_mul(a.y, s), ONE as i128),
        floor_div(wide_mul(a.z, s), ONE as i128),
    )
}

/// The exact difference of two stored vectors.
pub fn vec_diff(a: Vec3, b: Vec3) -> (r: Vec3)
    requires
        a.wf(),
        b.wf(),
    ensures
        r@ == a@.minus(b@),
        r@.bounded(2 * LIMIT),
{
    Vec3 { x: a.x - b.x, y: a.y - b.y, z: a.z - b.z }
}

/// The exact dot product of two vectors, in units of `1 / (ONE * ONE)`.
pub fn dot_exact(a: Vec3, b: Vec3) -> (r: i128)
    requires
        a@.bounded(2 * LIMIT),
        b@.bounded(2 * LIMIT),
    ensures
        r == a@.dot(b@),
        -12 * LIMIT_SQ <= r <= 12 * LIMIT_SQ,
{
    wide_mul(a.x, b.x) + wide_mul(a.y, b.y) + wide_mul(a.z, b.z)
}

/// The dot product of two vectors, rounded down; `None` if it leaves the range.
pub fn vec_dot(a: Vec3, b: Vec3) -> (r: Option<Scalar>)
    requires
        a.wf(),
        b.wf(),
    ensures
        r == (if in_range(a@.dot(b@) / (ONE as int)) {
            Some((a@.dot(b@) / (ONE as int)) as i64)
        } else {
            None
        }),
{
    narrow(floor_div(dot_exact(a, b), ONE as i128))
}

/// The cross product of two vectors, rounded down; `None` if a coordinate
/// leaves the range.
pub fn vec3_cross_product(a: Vec3, b: Vec3) -> (r: Option<Vec3>)
    requires
        a.wf(),
        b.wf(),
    ensures
        r == stored3(a@.cross(b@).over(ONE as int)),
{
    let x: i128 = wide_mul(a.y, b.z) - wide_mul(a.z, b.y);
    let y: i128 = wide_mul(a.z, b.x) - wide_mul(a.x, b.z);
    let z: i128 = wide_mul(a.x, b.y) - wide_mul(a.y, b.x);
    narrow3(floor_div(x, ONE as i128), floor_div(y, ONE as i128), floor_div(z, ONE as i128))
}

/// The raw length of a vector: the integer square root of its squared length.
pub fn length_raw(a: Vec3) -> (r: u64)
    requires
        a@.bounded(2 * LIMIT),
    ensures
        is_sqrt(a@.norm2(), r as int),
        r == sqrt_floor(a@.norm2()),
        r <= 4 * LIMIT,
        r == 0 <==> a@.is_zero(),
        -r <= a.x <= r,
        -r <= a.y <= r,
        -r <= a.z <= r,
{
    let xx: i128 = wide_mul(a.x, a.x);
    let yy: i128 = wide_mul(a.y, a.y);
    let zz: i128 = wide_mul(a.z, a.z);
    proof {
        lemma_square_nonneg(a.x as int);
        lemma_square_nonneg(a.y as int);
        lemma_square_nonneg(a.z as int);
    }
    let sum: i128 = xx + yy + zz;
    let r: u64 = isqrt(sum as u128);
    proof {
        let m: int = 4 * LIMIT;
        lemma_limit_square();
        assert(12 * (LIMIT * LIMIT) < (m + 1) * (m + 1)) by (nonlinear_arith)
            requires
                m == 4 * LIMIT,
                LIMIT > 0,
        ;
        lemma_root_below(r as int, m + 1, sum as int);
        lemma_root_covers(a.x as int, r as int, sum as int);
        lemma_root_covers(a.y as int, r as int, sum as int);
        lemma_root_covers(a.z as int, r as int, sum as int);
        if a@.is_zero() && r >= 1 {
            assert(sum == 0) by (nonlinear_arith)
                requires
                    sum == a.x * a.x + a.y * a.y + a.z * a.z,
                    a.x == 0,
                    a.y == 0,
                    a.z == 0,
            ;
            lemma_square_monotone(1, r as int);
        }
    }
    r
}

/// The length of a vector, rounded down; `None` if it leaves the range.
pub fn vec_length(a: Vec3) -> (r: Option<Scalar>)
    requires
        a.wf(),
    ensures
        r == (if sqrt_floor(a@.norm2()) <= LIMIT {
            Some(sqrt_floor(a@.norm2()) as i64)
        } else {
            None
        }),
{
    let len: u64 = length_raw(a);
    if len <= LIMIT as u64 {
        Some(len as i64)
    } else {
        None
    }
}

/// The distance between two points, rounded down; `None` if it leaves the range.
pub fn vec_distance(a: Vec3, b: Vec3) -> (r: Option<Scalar>)
    requires
        a.wf(),
        b.wf(),
    ensures
        r == (if sqrt_floor(a@.minus(b@).norm2()) <= LIMIT {
            Some(sqrt_floor(a@.minus(b@).norm2()) as i64)
        } else {
            None
        }),
{
    let len: u64 = length_raw(vec_diff(a, b));
    if len <= LIMIT as u64 {
        Some(len as i64)
    } else {
        None
    }
}

/// The unit vector along `v`: each coordinate is `v`'s, times one, divided by
/// the raw length of `v`, rounded down.
pub open spec fn unit_of(v: V3) -> V3 {
    v.times(ONE as int).over(sqrt_floor(v.norm2()))
}

/// The unit vector along a vector of any magnitude up to twice the limit.
pub fn normalize_raw(v: Vec3) -> (r: Vec3)
    requires
        v@.bounded(2 * LIMIT),
        !v@.is_zero(),
    ensures
        r@ == unit_of(v@),
        r@.bounded(ONE as int),
{
    let len: u64 = length_raw(v);
    let d: i128 = len as i128;
    let x: i128 = floor_div(times_one(v.x as i128), d);
    let y: i128 = floor_div(times_one(v.y as i128), d);
    let z: i128 = floor_div(times_one(v.z as i128), d);
    proof {
        lemma_unit_bound(v.x as int, d as int);
        lemma_unit_bound(v.y as int, d as int);
        lemma_unit_bound(v.z as int, d as int);
    }
    Vec3 { x: x as i64, y: y as i64, z: z as i64 }
}

/// The unit vector along `v`. The zero vector has no direction and is left
/// out.
pub fn vec_normalize(v: Vec3) -> (r: Vec3)
    requires
        v.wf(),
        !v@.is_zero(),
    ensures
        r@ == unit_of(v@),
        r@.bounded(ONE as int),
{
    normalize_raw(v)
}

/// The homogeneous form of a point: `w` is one.
pub fn vec3_into_vec4(v: Vec3) -> (r: Vec4)
    ensures
        r == (Vec4 { x: v.x, y: v.y, z: v.z, w: ONE }),
{
    Vec4 { x: v.x, y: v.y, z: v.z, w: ONE }
}

/// The first three coordinates of a homogeneous vector.
pub fn vec4_into_vec3(v: Vec4) -> (r: Vec3)
    ensures
        r == (Vec3 { x: v.x, y: v.y, z: v.z }),
{
    Vec3 { x: v.x, y: v.y, z: v.z }
}

/// The coordinates of `v` after the homogeneous divide.
pub open spec fn divided_by_w(v: V4) -> V3 {
    V3 { x: div_raw(v.x, v.w), y: div_raw(v.y, v.w), z: div_raw(v.z, v.w) }
}

/// A homogeneous vector with `x`, `y` and `z` divided by `w`, rounded down,
/// and `w` kept; `None` if `w` is zero or a quotient leaves the range.
pub fn vec4_scale_with_w(v: Vec4) -> (r: Option<Vec4>)
    ensures
        r == (if v.w != 0 {
            match stored3(divided_by_w(v@)) {
                Some(p) => Some(Vec4 { x: p.x, y: p.y, z: p.z, w: v.w }),
                None => None,
            }
        } else {
            None
        }),
{
    if v.w == 0 {
        return None;
    }
    let d: i128 = v.w as i128;
    match narrow3(
        floor_ratio(times_one(v.x as i128), d),
        floor_ratio(times_one(v.y as i128), d),
        floor_ratio(times_one(v.z as i128), d),
    ) {
        Some(p) => Some(Vec4 { x: p.x, y: p.y, z: p.z, w: v.w }),
        None => None,
    }
}

/// A square is never negative.
pub proof fn lemma_square_nonneg(a: int)
    ensures
        a * a >= 0,
{
    assert(a * a >= 0) by (nonlinear_arith);
}

/// Squaring keeps the order of non-negative integers.
pub proof fn lemma_square_monotone(a: int, b: int)
    requires
        0 <= a <= b,
    ensures
        a * a <= b * b,
{
    assert(a * a <= b * b) by (nonlinear_arith)
        requires
            0 <= a <= b,
    ;
}

/// A non-negative integer whose square is below the square of `m` is below `m`.
pub proof fn lemma_root_below(r: int, m: int, n: int)
    requires
        0 <= r,
        0 <= m,
        r * r <= n,
        n < m * m,
    ensures
        r < m,
{
    if r >= m {
        lemma_square_monotone(m, r);
    }
}

/// The integer root of a sum of squares is at least the magnitude of each term's base.
pub proof fn lemma_root_covers(a: int, r: int, n: int)
    requires
        0 <= r,
        a * a <= n,
        n < (r + 1) * (r + 1),
    ensures
        -r <= a <= r,
{
    if a > r {
        lemma_square_monotone(r + 1, a);
    }
    if a < -r {
        lemma_square_monotone(r + 1, -a);
        assert((-a) * (-a) == a * a) by (nonlinear_arith);
    }
}

/// A coordinate no longer than the divisor gives a quotient of at most one.
pub proof fn lemma_unit_bound(a: int, d: int)
    requires
        d > 0,
        -d <= a <= d,
    ensures
        -ONE <= (a * ONE) / d <= ONE,
{
    let q: int = (a * ONE) / d;
    vstd::arithmetic::div_mod::lemma_fundamental_div_mod(a * ONE, d);
    let r: int = (a * ONE) % d;
    assert(0 <= r < d);
    assert(q <= ONE) by (nonlinear_arith)
        requires
            a * ONE == d * q + r,
            0 <= r,
            d > 0,
            a <= d,
            ONE == 65536,
    ;
    assert(q >= -ONE) by (nonlinear_arith)
        requires
            a * ONE == d * q + r,
            r < d,
            d > 0,
            a >= -d,
            ONE == 65536,
    ;
}

} // verus!
