//! The stages that take one triangle from object space to the screen:
//! transform, backface test, projection with its divide, mapping to pixel
//! units, and clipping against the four edges of the viewport.

use vstd::prelude::*;
use crate::clip::{clipped, triangle_clip_plane};
use crate::list::{triangle_wf, Triangle, TriangleList};
use crate::matrix::{mat4_mul_vec4, stored4, transformed, Mat4};
use crate::scalar::{floor_div, lemma_limit_square, lemma_product_bound, LIMIT, LIMIT_SQ, ONE};
use crate::vector::{
    divided_by_w, narrow3, stored3, vec3_into_vec4, vec4_into_vec3, vec4_scale_with_w, vec_diff,
    wide_mul, Vec3, V3, V4,
};

verus! {

/// The homogeneous form of a point: `w` is one.
pub open spec fn point4(v: Vec3) -> V4 {
    V4 { x: v.x as int, y: v.y as int, z: v.z as int, w: ONE as int }
}

/// Where a matrix takes a point, with the `w` coordinate dropped; `None` if
/// a coordinate leaves the range.
pub open spec fn moved(m: Mat4, v: Vec3) -> Option<Vec3> {
    match stored4(transformed(m, point4(v))) {
        Some(p) => Some(Vec3 { x: p.x, y: p.y, z: p.z }),
        None => None,
    }
}

/// Where a matrix takes the three vertices of a triangle.
pub open spec fn moved_triangle(m: Mat4, t: Triangle) -> Option<Triangle> {
    match (moved(m, t.0), moved(m, t.1), moved(m, t.2)) {
        (Some(a), Some(b), Some(c)) => Some((a, b, c)),
        _ => None,
    }
}

/// Twice the area of a triangle, as a vector along its normal: the cross
/// product of its first two edges out of the first vertex. Exact.
pub open spec fn area_vector(t: Triangle) -> V3 {
    t.1@.minus(t.0@).cross(t.2@.minus(t.0@))
}

/// The dot product of a triangle's normal with the vector from the camera to
/// its first vertex. Exact; only its sign matters, and that is the sign the
/// dot product has with the normal scaled to unit length.
pub open spec fn facing(t: Triangle, camera: Vec3) -> int {
    area_vector(t).dot(t.0@.minus(camera@))
}

/// Whether the backface test discards a triangle.
pub open spec fn culled(t: Triangle, camera: Vec3, invert: bool) -> bool {
    if invert {
        facing(t, camera) > 0
    } else {
        facing(t, camera) < 0
    }
}

/// Where a perspective matrix and the divide by `w` take a point; `None` if
/// `w` is zero or a coordinate leaves the range.
pub open spec fn projected(m: Mat4, v: Vec3) -> Option<Vec3> {
    match stored4(transformed(m, point4(v))) {
        Some(c) => if c.w != 0 {
            stored3(divided_by_w(c@))
        } else {
            None
        },
        None => None,
    }
}

/// Where a perspective matrix and the divide take a triangle.
pub open spec fn projected_triangle(m: Mat4, t: Triangle) -> Option<Triangle> {
    match (projected(m, t.0), projected(m, t.1), projected(m, t.2)) {
        (Some(a), Some(b), Some(c)) => Some((a, b, c)),
        _ => None,
    }
}

/// A point in pixel units: one is added to `x` and to `y`, then `x` is
/// scaled by half the width and `y` by half the height, rounded down. Depth
/// is carried along as it is.
pub open spec fn on_screen(v: Vec3, width: u16, height: u16) -> Option<Vec3> {
    stored3(
        V3 { x: ((v.x + ONE) * width) / 2, y: ((v.y + ONE) * height) / 2, z: v.z as int },
    )
}

/// A triangle in pixel units.
pub open spec fn on_screen_triangle(t: Triangle, width: u16, height: u16) -> Option<Triangle> {
    match (on_screen(t.0, width, height), on_screen(t.1, width, height), on_screen(t.2, width, height)) {
        (Some(a), Some(b), Some(c)) => Some((a, b, c)),
        _ => None,
    }
}

/// The four edges of the viewport, each as a point on it and the normal
/// that points into the viewport: top, bottom, left, right.
pub open spec fn edge_plane(k: int, width: u16, height: u16) -> (Vec3, Vec3) {
    if k == 0 {
        (Vec3 { x: 0, y: 0, z: 0 }, Vec3 { x: 0, y: ONE, z: 0 })
    } else if k == 1 {
        (
            Vec3 { x: 0, y: ((height - 1) * ONE) as i64, z: 0 },
            Vec3 { x: 0, y: (-ONE) as i64, z: 0 },
        )
    } else if k == 2 {
        (Vec3 { x: 0, y: 0, z: 0 }, Vec3 { x: ONE, y: 0, z: 0 })
    } else {
        (
            Vec3 { x: ((width - 1) * ONE) as i64, y: 0, z: 0 },
            Vec3 { x: (-ONE) as i64, y: 0, z: 0 },
        )
    }
}

/// Every triangle of a list clipped against one plane, the results in order.
pub open spec fn clipped_all(point: V3, normal: V3, ts: Seq<Triangle>) -> Seq<Triangle>
    decreases ts.len(),
{
    if ts.len() == 0 {
        Seq::<Triangle>::empty()
    } else {
        clipped_all(point, normal, ts.drop_last()) + clipped(point, normal, ts.last())
    }
}

/// A list of triangles clipped against the first `k` edges of the viewport,
/// one edge after the other.
pub open spec fn edge_clipped(ts: Seq<Triangle>, k: int, width: u16, height: u16) -> Seq<Triangle>
    decreases k,
{
    if k <= 0 {
        ts
    } else {
        let plane = edge_plane(k - 1, width, height);
        clipped_all(plane.0@, plane.1@, edge_clipped(ts, k - 1, width, height))
    }
}

/// What is left of a triangle, given in pixel units, within the viewport.
pub open spec fn screen_clipped(t: Triangle, width: u16, height: u16) -> Seq<Triangle> {
    edge_clipped(seq![t], 4, width, height)
}

/// Whether every triangle of a list has stored vertices.
pub open spec fn all_wf(ts: Seq<Triangle>) -> bool {
    forall|i: int| 0 <= i < ts.len() ==> triangle_wf(#[trigger] ts[i])
}

/// Applies a matrix to a point and drops `w`.
pub fn transform_point(m: Mat4, v: Vec3) -> (r: Option<Vec3>)
    requires
        m.wf(),
        v.wf(),
    ensures
        r == moved(m, v),
        r matches Some(p) ==> p.wf(),
{
    match mat4_mul_vec4(m, vec3_into_vec4(v)) {
        Some(p) => Some(vec4_into_vec3(p)),
        None => None,
    }
}

/// Applies a matrix to the three vertices of a triangle.
pub fn transform_triangle(m: Mat4, t: Triangle) -> (r: Option<Triangle>)
    requires
        m.wf(),
        triangle_wf(t),
    ensures
        r == moved_triangle(m, t),
        r matches Some(p) ==> triangle_wf(p),
{
    match (transform_point(m, t.0), transform_point(m, t.1), transform_point(m, t.2)) {
        (Some(a), Some(b), Some(c)) => Some((a, b, c)),
        _ => None,
    }
}

/// The backface test: whether a triangle is discarded because it does not
/// face the camera, or, with `invert`, because it does.
pub fn is_culled(t: Triangle, camera: Vec3, invert: bool) -> (r: bool)
    requires
        triangle_wf(t),
        camera.wf(),
    ensures
        r == culled(t, camera, invert),
{
    let e1: Vec3 = vec_diff(t.1, t.0);
    let e2: Vec3 = vec_diff(t.2, t.0);
    let to: Vec3 = vec_diff(t.0, camera);
    let nx: i128 = wide_mul(e1.y, e2.z) - wide_mul(e1.z, e2.y);
    let ny: i128 = wide_mul(e1.z, e2.x) - wide_mul(e1.x, e2.z);
    let nz: i128 = wide_mul(e1.x, e2.y) - wide_mul(e1.y, e2.x);
    proof {
        lemma_limit_square();
        lemma_product_bound(nx as int, to.x as int, 8 * LIMIT_SQ, 2 * LIMIT);
        lemma_product_bound(ny as int, to.y as int, 8 * LIMIT_SQ, 2 * LIMIT);
        lemma_product_bound(nz as int, to.z as int, 8 * LIMIT_SQ, 2 * LIMIT);
        assert((8 * LIMIT_SQ) * (2 * LIMIT) == 0x1000_0000_0000_0000_0000_0000_0000_0000)
            by (nonlinear_arith)
            requires
                LIMIT == 0x100_0000_0000,
                LIMIT_SQ == 0x1_0000_0000_0000_0000_0000,
        ;
    }
    let s: i128 = nx * (to.x as i128) + ny * (to.y as i128) + nz * (to.z as i128);
    if invert {
        s > 0
    } else {
        s < 0
    }
}

/// Applies a perspective matrix to a point and divides by `w`.
pub fn project_point(m: Mat4, v: Vec3) -> (r: Option<Vec3>)
    requires
        m.wf(),
        v.wf(),
    ensures
        r == projected(m, v),
        r matches Some(p) ==> p.wf(),
{
    match mat4_mul_vec4(m, vec3_into_vec4(v)) {
        Some(c) => match vec4_scale_with_w(c) {
            Some(p) => Some(vec4_into_vec3(p)),
            None => None,
        },
        None => None,
    }
}

/// Applies a perspective matrix and the divide to a triangle.
pub fn project_triangle(m: Mat4, t: Triangle) -> (r: Option<Triangle>)
    requires
        m.wf(),
        triangle_wf(t),
    ensures
        r == projected_triangle(m, t),
        r matches Some(p) ==> triangle_wf(p),
{
    match (project_point(m, t.0), project_point(m, t.1), project_point(m, t.2)) {
        (Some(a), Some(b), Some(c)) => Some((a, b, c)),
        _ => None,
    }
}

/// Maps a point to pixel units.
pub fn point_to_screen(v: Vec3, width: u16, height: u16) -> (r: Option<Vec3>)
    requires
        v.wf(),
    ensures
        r == on_screen(v, width, height),
        r matches Some(p) ==> p.wf(),
{
    proof {
        lemma_product_bound(v.x + ONE, width as int, 2 * LIMIT, 0x1_0000);
        lemma_product_bound(v.y + ONE, height as int, 2 * LIMIT, 0x1_0000);
    }
    let x: i128 = (v.x as i128 + ONE as i128) * (width as i128);
    let y: i128 = (v.y as i128 + ONE as i128) * (height as i128);
    narrow3(floor_div(x, 2), floor_div(y, 2), v.z as i128)
}

/// Maps a triangle to pixel units.
pub fn triangle_to_screen(t: Triangle, width: u16, height: u16) -> (r: Option<Triangle>)
    requires
        triangle_wf(t),
    ensures
        r == on_screen_triangle(t, width, height),
        r matches Some(p) ==> triangle_wf(p),
{
    match (
        point_to_screen(t.0, width, height),
        point_to_screen(t.1, width, height),
        point_to_screen(t.2, width, height),
    ) {
        (Some(a), Some(b), Some(c)) => Some((a, b, c)),
        _ => None,
    }
}

/// One edge of the viewport: a point on it and the normal that points into
/// the viewport. The edges are numbered top, bottom, left, right from zero.
pub fn viewport_edge(k: usize, width: u16, height: u16) -> (r: (Vec3, Vec3))
    requires
        k < 4,
    ensures
        r == edge_plane(k as int, width, height),
        r.0.wf(),
        r.1.wf(),
{
    if k == 0 {
        (Vec3 { x: 0, y: 0, z: 0 }, Vec3 { x: 0, y: ONE, z: 0 })
    } else if k == 1 {
        (Vec3 { x: 0, y: (height as i64 - 1) * 65536, z: 0 }, Vec3 { x: 0, y: -ONE, z: 0 })
    } else if k == 2 {
        (Vec3 { x: 0, y: 0, z: 0 }, Vec3 { x: ONE, y: 0, z: 0 })
    } else {
        (Vec3 { x: (width as i64 - 1) * 65536, y: 0, z: 0 }, Vec3 { x: -ONE, y: 0, z: 0 })
    }
}

/// Clips every triangle of a list against one plane and gathers what is left.
pub fn clip_list(point: Vec3, normal: Vec3, list: &TriangleList) -> (r: TriangleList)
    requires
        point.wf(),
        normal.wf(),
        all_wf(list@),
    ensures
        r@ == clipped_all(point@, normal@, list@),
        all_wf(r@),
{
    let mut passed = TriangleList::new();
    let n: usize = list.len();
    let mut i: usize = 0;
    while i < n
        invariant
            i <= n,
            n == list@.len(),
            point.wf(),
            normal.wf(),
            all_wf(list@),
            passed@ == clipped_all(point@, normal@, list@.take(i as int)),
            all_wf(passed@),
        decreases n - i,
    {
        let t: Triangle = list.get(i).unwrap();
        let mut kept: TriangleList = triangle_clip_plane(point, normal, t);
        proof {
            let next = list@.take(i as int + 1);
            assert(next.drop_last() =~= list@.take(i as int));
            assert(next.last() == t);
        }
        passed.append(&mut kept);
        i += 1;
    }
    proof {
        assert(list@.take(n as int) =~= list@);
    }
    passed
}

/// Clips a triangle, given in pixel units, against the four edges of the
/// viewport in turn. Every triangle that one edge leaves is clipped against
/// the next.
pub fn clip_to_screen(t: Triangle, width: u16, height: u16) -> (r: TriangleList)
    requires
        triangle_wf(t),
    ensures
        r@ == screen_clipped(t, width, height),
        all_wf(r@),
{
    let mut kept = TriangleList::new();
    kept.push(t);
    assert(kept@ =~= seq![t]);
    let mut k: usize = 0;
    while k < 4
        invariant
            k <= 4,
            kept@ == edge_clipped(seq![t], k as int, width, height),
            all_wf(kept@),
        decreases 4 - k,
    {
        let plane = viewport_edge(k, width, height);
        kept = clip_list(plane.0, plane.1, &kept);
        k += 1;
    }
    kept
}

} // verus!
