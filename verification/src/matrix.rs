//! Four-by-four fixed-point matrices.
//!
//! A matrix is applied to a column vector on its right. A transform built by
//! `mat4_scale`, `mat4_rotate` or `mat4_translate` is composed on the left of
//! the matrix it is given, so that it acts after it.

use vstd::prelude::*;
use crate::scalar::{
    div_raw, floor_div, floor_ratio, in_range, lemma_product_bound, narrow, ratio, times_one,
    Scalar, LIMIT, LIMIT_SQ, ONE,
};
use crate::vector::{
    dot_exact, normalize_raw, unit_of, vec_diff, wide_mul, Vec3, Vec4, V3, V4,
};

verus! {

/// The exact dot product of two four-vectors, in units of `1 / (ONE * ONE)`.
pub open spec fn dot4(a: V4, b: V4) -> int {
    a.x * b.x + a.y * b.y + a.z * b.z + a.w * b.w
}

/// Whether every coordinate is one the library stores.
pub open spec fn in_range4(v: V4) -> bool {
    in_range(v.x) && in_range(v.y) && in_range(v.z) && in_range(v.w)
}

/// The stored vector with the given integer coordinates, if they are in range.
pub open spec fn stored4(v: V4) -> Option<Vec4> {
    if in_range4(v) {
        Some(Vec4 { x: v.x as i64, y: v.y as i64, z: v.z as i64, w: v.w as i64 })
    } else {
        None
    }
}

/// A matrix, given by its four rows.
#[derive(Clone, Copy, Debug, PartialEq, Eq, Structural)]
pub struct Mat4 {
    pub r0: Vec4,
    pub r1: Vec4,
    pub r2: Vec4,
    pub r3: Vec4,
}

impl Mat4 {
    /// Whether every entry is one the library stores.
    pub open spec fn wf(self) -> bool {
        self.r0.wf() && self.r1.wf() && self.r2.wf() && self.r3.wf()
    }

    /// Tests whether every entry is one the library stores.
    pub fn is_wf(&self) -> (r: bool)
        ensures
            r == self.wf(),
    {
        self.r0.is_wf() && self.r1.is_wf() && self.r2.is_wf() && self.r3.is_wf()
    }

    /// The first column.
    pub open spec fn col0(self) -> V4 {
        V4 { x: self.r0.x as int, y: self.r1.x as int, z: self.r2.x as int, w: self.r3.x as int }
    }

    /// The second column.
    pub open spec fn col1(self) -> V4 {
        V4 { x: self.r0.y as int, y: self.r1.y as int, z: self.r2.y as int, w: self.r3.y as int }
    }

    /// The third column.
    pub open spec fn col2(self) -> V4 {
        V4 { x: self.r0.z as int, y: self.r1.z as int, z: self.r2.z as int, w: self.r3.z as int }
    }

    /// The fourth column.
    pub open spec fn col3(self) -> V4 {
        V4 { x: self.r0.w as int, y: self.r1.w as int, z: self.r2.w as int, w: self.r3.w as int }
    }
}

/// The matrix applied to a vector: each coordinate is the dot product of a
/// row with the vector, rounded down.
pub open spec fn transformed(m: Mat4, v: V4) -> V4 {
    V4 {
        x: dot4(m.r0@, v) / (ONE as int),
        y: dot4(m.r1@, v) / (ONE as int),
        z: dot4(m.r2@, v) / (ONE as int),
        w: dot4(m.r3@, v) / (ONE as int),
    }
}

/// A row vector applied to a matrix on its right: each coordinate is the dot
/// product of the row with a column, rounded down.
pub open spec fn row_times(r: V4, m: Mat4) -> V4 {
    V4 {
        x: dot4(r, m.col0()) / (ONE as int),
        y: dot4(r, m.col1()) / (ONE as int),
        z: dot4(r, m.col2()) / (ONE as int),
        w: dot4(r, m.col3()) / (ONE as int),
    }
}

/// The matrix product `a * b`, if all its entries are in range.
pub open spec fn product(a: Mat4, b: Mat4) -> Option<Mat4> {
    match (
        stored4(row_times(a.r0@, b)),
        stored4(row_times(a.r1@, b)),
        stored4(row_times(a.r2@, b)),
        stored4(row_times(a.r3@, b)),
    ) {
        (Some(r0), Some(r1), Some(r2), Some(r3)) => Some(Mat4 { r0, r1, r2, r3 }),
        _ => None,
    }
}

/// The identity matrix.
pub open spec fn identity() -> Mat4 {
    Mat4 {
        r0: Vec4 { x: ONE, y: 0, z: 0, w: 0 },
        r1: Vec4 { x: 0, y: ONE, z: 0, w: 0 },
        r2: Vec4 { x: 0, y: 0, z: ONE, w: 0 },
        r3: Vec4 { x: 0, y: 0, z: 0, w: ONE },
    }
}

/// The matrix that scales each axis by a coordinate of `s`.
pub open spec fn scaling(s: Vec3) -> Mat4 {
    Mat4 {
        r0: Vec4 { x: s.x, y: 0, z: 0, w: 0 },
        r1: Vec4 { x: 0, y: s.y, z: 0, w: 0 },
        r2: Vec4 { x: 0, y: 0, z: s.z, w: 0 },
        r3: Vec4 { x: 0, y: 0, z: 0, w: ONE },
    }
}

/// The matrix that moves every point by `t`.
pub open spec fn translation(t: Vec3) -> Mat4 {
    Mat4 {
        r0: Vec4 { x: ONE, y: 0, z: 0, w: t.x },
        r1: Vec4 { x: 0, y: ONE, z: 0, w: t.y },
        r2: Vec4 { x: 0, y: 0, z: ONE, w: t.z },
        r3: Vec4 { x: 0, y: 0, z: 0, w: ONE },
    }
}

/// The exact dot product of two stored four-vectors.
fn dot4_exact(a: Vec4, b: Vec4) -> (r: i128)
    requires
        a.wf(),
        b.wf(),
    ensures
        r == dot4(a@, b@),
        -16 * LIMIT_SQ <= r <= 16 * LIMIT_SQ,
{
    wide_mul(a.x, b.x) + wide_mul(a.y, b.y) + wide_mul(a.z, b.z) + wide_mul(a.w, b.w)
}

/// Keeps four wide coordinates if all of them are in range.
fn narrow4(x: i128, y: i128, z: i128, w: i128) -> (r: Option<Vec4>)
    ensures
        r == stored4(V4 { x: x as int, y: y as int, z: z as int, w: w as int }),
{
    match (narrow(x), narrow(y), narrow(z), narrow(w)) {
        (Some(x), Some(y), Some(z), Some(w)) => Some(Vec4 { x, y, z, w }),
        _ => None,
    }
}

/// The identity matrix.
pub fn mat4_identity() -> (r: Mat4)
    ensures
        r == identity(),
        r.wf(),
{
    Mat4 {
        r0: Vec4 { x: ONE, y: 0, z: 0, w: 0 },
        r1: Vec4 { x: 0, y: ONE, z: 0, w: 0 },
        r2: Vec4 { x: 0, y: 0, z: ONE, w: 0 },
        r3: Vec4 { x: 0, y: 0, z: 0, w: ONE },
    }
}

/// Applies a matrix to a vector; `None` if a coordinate leaves the range.
pub fn mat4_mul_vec4(m: Mat4, v: Vec4) -> (r: Option<Vec4>)
    requires
        m.wf(),
        v.wf(),
    ensures
        r == stored4(transformed(m, v@)),
        r matches Some(p) ==> p.wf(),
{
    narrow4(
        floor_div(dot4_exact(m.r0, v), ONE as i128),
        floor_div(dot4_exact(m.r1, v), ONE as i128),
        floor_div(dot4_exact(m.r2, v), ONE as i128),
        floor_div(dot4_exact(m.r3, v), ONE as i128),
    )
}

/// One row of a matrix product.
fn row_times_exec(r: Vec4, m: Mat4) -> (out: Option<Vec4>)
    requires
        r.wf(),
        m.wf(),
    ensures
        out == stored4(row_times(r@, m)),
        out matches Some(p) ==> p.wf(),
{
    let c0 = Vec4 { x: m.r0.x, y: m.r1.x, z: m.r2.x, w: m.r3.x };
    let c1 = Vec4 { x: m.r0.y, y: m.r1.y, z: m.r2.y, w: m.r3.y };
    let c2 = Vec4 { x: m.r0.z, y: m.r1.z, z: m.r2.z, w: m.r3.z };
    let c3 = Vec4 { x: m.r0.w, y: m.r1.w, z: m.r2.w, w: m.r3.w };
    narrow4(
        floor_div(dot4_exact(r, c0), ONE as i128),
        floor_div(dot4_exact(r, c1), ONE as i128),
        floor_div(dot4_exact(r, c2), ONE as i128),
        floor_div(dot4_exact(r, c3), ONE as i128),
    )
}

/// The matrix product `a * b`, which applies `b` first; `None` if an entry
/// leaves the range.
pub fn mat4_mul_mat4(a: Mat4, b: Mat4) -> (r: Option<Mat4>)
    requires
        a.wf(),
        b.wf(),
    ensures
        r == product(a, b),
        r matches Some(m) ==> m.wf(),
{
    match (
        row_times_exec(a.r0, b),
        row_times_exec(a.r1, b),
        row_times_exec(a.r2, b),
        row_times_exec(a.r3, b),
    ) {
        (Some(r0), Some(r1), Some(r2), Some(r3)) => Some(Mat4 { r0, r1, r2, r3 }),
        _ => None,
    }
}

/// The transform `m` followed by a scaling of each axis by a coordinate of
/// `s`; `None` if an entry leaves the range.
pub fn mat4_scale(m: Mat4, s: Vec3) -> (r: Option<Mat4>)
    requires
        m.wf(),
        s.wf(),
    ensures
        r == product(scaling(s), m),
        r matches Some(p) ==> p.wf(),
{
    let by = Mat4 {
        r0: Vec4 { x: s.x, y: 0, z: 0, w: 0 },
        r1: Vec4 { x: 0, y: s.y, z: 0, w: 0 },
        r2: Vec4 { x: 0, y: 0, z: s.z, w: 0 },
        r3: Vec4 { x: 0, y: 0, z: 0, w: ONE },
    };
    mat4_mul_mat4(by, m)
}

/// The transform `m` followed by a move by `t`; `None` if an entry leaves
/// the range.
pub fn mat4_translate(m: Mat4, t: Vec3) -> (r: Option<Mat4>)
    requires
        m.wf(),
        t.wf(),
    ensures
        r == product(translation(t), m),
        r matches Some(p) ==> p.wf(),
{
    let by = Mat4 {
        r0: Vec4 { x: ONE, y: 0, z: 0, w: t.x },
        r1: Vec4 { x: 0, y: ONE, z: 0, w: t.y },
        r2: Vec4 { x: 0, y: 0, z: ONE, w: t.z },
        r3: Vec4 { x: 0, y: 0, z: 0, w: ONE },
    };
    mat4_mul_mat4(by, m)
}

/// The square of the raw value of one.
pub const ONE_SQ: i128 = 0x1_0000_0000;

/// One entry of a rotation matrix about the unit axis `u`: the product of two
/// axis coordinates with one minus the cosine, plus a term `add` in units of
/// `1 / (ONE * ONE)`, rounded down.
pub open spec fn rotation_entry(ui: int, uj: int, k: int, add: int) -> int {
    (ui * uj * k + add * ONE) / (ONE_SQ as int)
}

/// The rows of the rotation about the unit axis `u` by the angle whose sine
/// and cosine are `s` and `c`, before they are checked against the range.
pub open spec fn rotation_rows(u: V3, s: int, c: int) -> (V4, V4, V4) {
    let k = ONE - c;
    (
        V4 {
            x: rotation_entry(u.x, u.x, k, c * ONE),
            y: rotation_entry(u.x, u.y, k, -(u.z * s)),
            z: rotation_entry(u.x, u.z, k, u.y * s),
            w: 0,
        },
        V4 {
            x: rotation_entry(u.y, u.x, k, u.z * s),
            y: rotation_entry(u.y, u.y, k, c * ONE),
            z: rotation_entry(u.y, u.z, k, -(u.x * s)),
            w: 0,
        },
        V4 {
            x: rotation_entry(u.z, u.x, k, -(u.y * s)),
            y: rotation_entry(u.z, u.y, k, u.x * s),
            z: rotation_entry(u.z, u.z, k, c * ONE),
            w: 0,
        },
    )
}

/// The rotation about `axis` by the angle whose sine and cosine are given.
/// There is none about the zero vector, and none if an entry leaves the range.
pub open spec fn rotation(axis: Vec3, sin: Scalar, cos: Scalar) -> Option<Mat4> {
    if axis@.is_zero() {
        None
    } else {
        let rows = rotation_rows(unit_of(axis@), sin as int, cos as int);
        match (stored4(rows.0), stored4(rows.1), stored4(rows.2)) {
            (Some(r0), Some(r1), Some(r2)) => Some(
                Mat4 { r0, r1, r2, r3: Vec4 { x: 0, y: 0, z: 0, w: ONE } },
            ),
            _ => None,
        }
    }
}

/// One entry of a rotation matrix.
fn rotation_entry_exec(ui: i64, uj: i64, k: i64, add: i128) -> (r: i128)
    requires
        -ONE <= ui <= ONE,
        -ONE <= uj <= ONE,
        -2 * LIMIT <= k <= 2 * LIMIT,
        -ONE * LIMIT <= add <= ONE * LIMIT,
    ensures
        r == rotation_entry(ui as int, uj as int, k as int, add as int),
{
    proof {
        lemma_product_bound(ui as int, uj as int, ONE as int, ONE as int);
        assert(ONE * ONE == 0x1_0000_0000) by (nonlinear_arith)
            requires
                ONE == 0x1_0000,
        ;
        lemma_product_bound(ui * uj, k as int, 0x1_0000_0000, 2 * LIMIT);
        assert(ONE * LIMIT == 0x100_0000_0000_0000) by (nonlinear_arith)
            requires
                ONE == 0x1_0000,
                LIMIT == 0x100_0000_0000,
        ;
        assert(0x1_0000_0000 * (2 * LIMIT) == 0x200_0000_0000_0000_0000) by (nonlinear_arith)
            requires
                LIMIT == 0x100_0000_0000,
        ;
    }
    let uu: i128 = (ui as i128) * (uj as i128);
    let top: i128 = uu * (k as i128) + times_one(add);
    floor_div(top, ONE_SQ)
}

/// The transform `m` followed by a rotation about `axis` by the angle whose
/// sine and cosine are `sin` and `cos`. The axis may have any length but
/// zero. `None` if the axis is the zero vector or an entry leaves the range.
pub fn mat4_rotate(m: Mat4, sin: Scalar, cos: Scalar, axis: Vec3) -> (r: Option<Mat4>)
    requires
        m.wf(),
        axis.wf(),
        in_range(sin as int),
        in_range(cos as int),
    ensures
        r == (match rotation(axis, sin, cos) {
            Some(by) => product(by, m),
            None => None,
        }),
        r matches Some(p) ==> p.wf(),
{
    if axis.x == 0 && axis.y == 0 && axis.z == 0 {
        return None;
    }
    let u: Vec3 = normalize_raw(axis);
    let k: i64 = ONE - cos;
    proof {
        assert(ONE * LIMIT == 0x100_0000_0000_0000) by (nonlinear_arith)
            requires
                ONE == 0x1_0000,
                LIMIT == 0x100_0000_0000,
        ;
        lemma_product_bound(u.x as int, sin as int, ONE as int, LIMIT as int);
        lemma_product_bound(u.y as int, sin as int, ONE as int, LIMIT as int);
        lemma_product_bound(u.z as int, sin as int, ONE as int, LIMIT as int);
    }
    let cc: i128 = times_one(cos as i128);
    let xs: i128 = (u.x as i128) * (sin as i128);
    let ys: i128 = (u.y as i128) * (sin as i128);
    let zs: i128 = (u.z as i128) * (sin as i128);
    let r0 = narrow4(
        rotation_entry_exec(u.x, u.x, k, cc),
        rotation_entry_exec(u.x, u.y, k, -zs),
        rotation_entry_exec(u.x, u.z, k, ys),
        0,
    );
    let r1 = narrow4(
        rotation_entry_exec(u.y, u.x, k, zs),
        rotation_entry_exec(u.y, u.y, k, cc),
        rotation_entry_exec(u.y, u.z, k, -xs),
        0,
    );
    let r2 = narrow4(
        rotation_entry_exec(u.z, u.x, k, -ys),
        rotation_entry_exec(u.z, u.y, k, xs),
        rotation_entry_exec(u.z, u.z, k, cc),
        0,
    );
    match (r0, r1, r2) {
        (Some(r0), Some(r1), Some(r2)) => {
            let by = Mat4 { r0, r1, r2, r3: Vec4 { x: 0, y: 0, z: 0, w: ONE } };
            mat4_mul_mat4(by, m)
        },
        _ => None,
    }
}

/// The entries of the perspective matrix that are not fixed: the two focal
/// scales on the diagonal, and the scale and offset of depth.
pub open spec fn projection_entries(aspect: int, tan_half_fov: int, near: int, far: int) -> V4 {
    let focal = div_raw(ONE as int, tan_half_fov);
    V4 {
        x: div_raw(focal, aspect),
        y: focal,
        z: div_raw(far + near, far - near),
        w: ratio(-2 * (far * near), far - near),
    }
}

/// The perspective matrix for a camera that looks down the positive `z`
/// axis. After the divide by `w`, a point within the field of view has `x`
/// and `y` between minus one and one, and depth runs from minus one at `near`
/// to one at `far`. There is none where a divisor is zero or an entry leaves
/// the range.
pub open spec fn projection(aspect: Scalar, tan_half_fov: Scalar, near: Scalar, far: Scalar)
    -> Option<Mat4> {
    if tan_half_fov == 0 || aspect == 0 || far == near {
        None
    } else {
        match stored4(projection_entries(aspect as int, tan_half_fov as int, near as int, far as int)) {
            Some(e) => Some(
                Mat4 {
                    r0: Vec4 { x: e.x, y: 0, z: 0, w: 0 },
                    r1: Vec4 { x: 0, y: e.y, z: 0, w: 0 },
                    r2: Vec4 { x: 0, y: 0, z: e.z, w: e.w },
                    r3: Vec4 { x: 0, y: 0, z: ONE, w: 0 },
                },
            ),
            None => None,
        }
    }
}

/// The perspective matrix for the given aspect ratio, tangent of half the
/// field of view, and near and far distances.
pub fn mat4_get_projection(aspect: Scalar, tan_half_fov: Scalar, near: Scalar, far: Scalar) -> (r:
    Option<Mat4>)
    requires
        in_range(aspect as int),
        in_range(tan_half_fov as int),
        in_range(near as int),
        in_range(far as int),
    ensures
        r == projection(aspect, tan_half_fov, near, far),
        r matches Some(p) ==> p.wf(),
{
    if tan_half_fov == 0 || aspect == 0 || far == near {
        return None;
    }
    let focal: i128 = floor_ratio(times_one(ONE as i128), tan_half_fov as i128);
    proof {
        lemma_ratio_bound(ONE * ONE, tan_half_fov as int);
        assert(ONE * ONE == 0x1_0000_0000) by (nonlinear_arith)
            requires
                ONE == 0x1_0000,
        ;
    }
    let x: i128 = floor_ratio(times_one(focal), aspect as i128);
    let z: i128 = floor_ratio(times_one(far as i128 + near as i128), far as i128 - near as i128);
    let fn2: i128 = -2 * wide_mul(far, near);
    let w: i128 = floor_ratio(fn2, far as i128 - near as i128);
    match narrow4(x, focal, z, w) {
        Some(e) => Some(
            Mat4 {
                r0: Vec4 { x: e.x, y: 0, z: 0, w: 0 },
                r1: Vec4 { x: 0, y: e.y, z: 0, w: 0 },
                r2: Vec4 { x: 0, y: 0, z: e.z, w: e.w },
                r3: Vec4 { x: 0, y: 0, z: ONE, w: 0 },
            },
        ),
        None => None,
    }
}

/// The three axes of the camera frame, as unit vectors: right, up and
/// forward. There are none when the target is the eye, or when `up` is along
/// the line of sight.
pub open spec fn camera_axes(eye: Vec3, target: Vec3, up: Vec3) -> Option<(V3, V3, V3)> {
    let line = target@.minus(eye@);
    if line.is_zero() {
        None
    } else {
        let forward = unit_of(line);
        let across = up@.cross(forward).over(ONE as int);
        if across.is_zero() {
            None
        } else {
            let right = unit_of(across);
            Some((right, forward.cross(right).over(ONE as int), forward))
        }
    }
}

/// One row of a view matrix: an axis, and the offset that takes the eye to
/// zero along that axis.
pub open spec fn view_row(axis: V3, eye: V3) -> V4 {
    V4 { x: axis.x, y: axis.y, z: axis.z, w: (-axis.dot(eye)) / (ONE as int) }
}

/// The view matrix of a camera at `eye` that looks at `target`: it takes the
/// eye to the origin and the line of sight to the positive `z` axis, with
/// `x` to the right and `y` upward. Where the camera has no frame it is the
/// identity; there is none if an offset leaves the range.
pub open spec fn look_at(eye: Vec3, target: Vec3, up: Vec3) -> Option<Mat4> {
    match camera_axes(eye, target, up) {
        None => Some(identity()),
        Some((right, above, forward)) => match (
            stored4(view_row(right, eye@)),
            stored4(view_row(above, eye@)),
            stored4(view_row(forward, eye@)),
        ) {
            (Some(r0), Some(r1), Some(r2)) => Some(
                Mat4 { r0, r1, r2, r3: Vec4 { x: 0, y: 0, z: 0, w: ONE } },
            ),
            _ => None,
        },
    }
}

/// The exact cross product of two vectors, divided by one and rounded down.
fn cross_scaled(a: Vec3, b: Vec3) -> (r: Vec3)
    requires
        a@.bounded(LIMIT as int),
        b@.bounded(ONE as int),
    ensures
        r@ == a@.cross(b@).over(ONE as int),
        r@.bounded(2 * LIMIT),
        a@.bounded(ONE as int) ==> r@.bounded(2 * ONE),
{
    let x: i128 = wide_mul(a.y, b.z) - wide_mul(a.z, b.y);
    let y: i128 = wide_mul(a.z, b.x) - wide_mul(a.x, b.z);
    let z: i128 = wide_mul(a.x, b.y) - wide_mul(a.y, b.x);
    proof {
        lemma_cross_term(a.y as int, b.z as int, a.z as int, b.y as int, LIMIT as int);
        lemma_cross_term(a.z as int, b.x as int, a.x as int, b.z as int, LIMIT as int);
        lemma_cross_term(a.x as int, b.y as int, a.y as int, b.x as int, LIMIT as int);
        if a@.bounded(ONE as int) {
            lemma_cross_term(a.y as int, b.z as int, a.z as int, b.y as int, ONE as int);
            lemma_cross_term(a.z as int, b.x as int, a.x as int, b.z as int, ONE as int);
            lemma_cross_term(a.x as int, b.y as int, a.y as int, b.x as int, ONE as int);
        }
    }
    Vec3 {
        x: floor_div(x, ONE as i128) as i64,
        y: floor_div(y, ONE as i128) as i64,
        z: floor_div(z, ONE as i128) as i64,
    }
}

/// One row of a view matrix.
fn view_row_exec(axis: Vec3, eye: Vec3) -> (r: Option<Vec4>)
    requires
        axis@.bounded(2 * ONE),
        eye.wf(),
    ensures
        r == stored4(view_row(axis@, eye@)),
        r matches Some(p) ==> p.wf(),
{
    let offset: i128 = floor_div(-dot_exact(axis, eye), ONE as i128);
    narrow4(axis.x as i128, axis.y as i128, axis.z as i128, offset)
}

/// The view matrix of a camera at `eye` that looks at `target`, with `up`
/// giving the upward direction. Where the target is the eye, or `up` is
/// along the line of sight, the result is the identity. `None` if an offset
/// leaves the range.
pub fn mat4_get_look_at(eye: Vec3, target: Vec3, up: Vec3) -> (r: Option<Mat4>)
    requires
        eye.wf(),
        target.wf(),
        up.wf(),
    ensures
        r == look_at(eye, target, up),
        r matches Some(p) ==> p.wf(),
{
    let line: Vec3 = vec_diff(target, eye);
    if line.x == 0 && line.y == 0 && line.z == 0 {
        return Some(mat4_identity());
    }
    let forward: Vec3 = normalize_raw(line);
    let across: Vec3 = cross_scaled(up, forward);
    if across.x == 0 && across.y == 0 && across.z == 0 {
        return Some(mat4_identity());
    }
    let right: Vec3 = normalize_raw(across);
    let above: Vec3 = cross_scaled(forward, right);
    match (view_row_exec(right, eye), view_row_exec(above, eye), view_row_exec(forward, eye)) {
        (Some(r0), Some(r1), Some(r2)) => Some(
            Mat4 { r0, r1, r2, r3: Vec4 { x: 0, y: 0, z: 0, w: ONE } },
        ),
        _ => None,
    }
}

/// One coordinate of a cross product with a unit vector, divided by one, is
/// at most twice the bound of the other vector.
pub proof fn lemma_cross_term(a: int, b: int, c: int, d: int, m: int)
    requires
        -m <= a <= m,
        -m <= c <= m,
        -ONE <= b <= ONE,
        -ONE <= d <= ONE,
        m >= 0,
    ensures
        -2 * m <= (a * b - c * d) / (ONE as int) <= 2 * m,
{
    lemma_product_bound(a, b, m, ONE as int);
    lemma_product_bound(c, d, m, ONE as int);
    let top: int = a * b - c * d;
    assert(-2 * (m * ONE) <= top <= 2 * (m * ONE));
    vstd::arithmetic::div_mod::lemma_fundamental_div_mod(top, ONE as int);
    let q: int = top / (ONE as int);
    let r: int = top % (ONE as int);
    assert(-2 * m <= q <= 2 * m) by (nonlinear_arith)
        requires
            top == ONE * q + r,
            0 <= r < ONE,
            ONE == 65536,
            -2 * (m * ONE) <= top <= 2 * (m * ONE),
    ;
}

/// A quotient by a non-zero integer is no larger than the dividend.
pub proof fn lemma_ratio_bound(num: int, den: int)
    requires
        den != 0,
        num >= 0,
    ensures
        -num <= ratio(num, den) <= num,
{
    if den > 0 {
        vstd::arithmetic::div_mod::lemma_fundamental_div_mod(num, den);
        let q: int = num / den;
        let r: int = num % den;
        assert(0 <= q <= num) by (nonlinear_arith)
            requires
                num == den * q + r,
                0 <= r < den,
                den > 0,
                num >= 0,
        ;
    } else {
        vstd::arithmetic::div_mod::lemma_fundamental_div_mod(-num, -den);
        let q: int = (-num) / (-den);
        let r: int = (-num) % (-den);
        assert(-num <= q <= 0) by (nonlinear_arith)
            requires
                -num == (-den) * q + r,
                0 <= r < -den,
                -den > 0,
                num >= 0,
        ;
    }
}

} // verus!
