//! Clipping one triangle against one half-space.
//!
//! A plane is given by a point on it and a normal. A vertex is inside when
//! the dot product of the normal with the vector from the plane point to the
//! vertex is not negative. The classification is exact; the points where
//! edges cross the plane are rounded down, coordinate by coordinate.

use vstd::prelude::*;
use vstd::arithmetic::div_mod::{lemma_div_is_ordered, lemma_div_multiples_vanish};
use crate::list::{triangle_wf, Triangle, TriangleList};
use crate::scalar::{floor_div, lemma_limit_square, lemma_product_bound, LIMIT, LIMIT_SQ};
use crate::vector::{dot_exact, vec_diff, Vec3, V3};

verus! {

/// The signed distance of `v` from the plane, scaled by the length of the
/// normal: exact, in units of `1 / (ONE * ONE)`.
pub open spec fn side(point: V3, normal: V3, v: V3) -> int {
    normal.dot(v.minus(point))
}

/// Whether `v` lies in the half-space that the plane keeps.
pub open spec fn inside(point: V3, normal: V3, v: V3) -> bool {
    side(point, normal, v) >= 0
}

/// One coordinate of the point where an edge crosses the plane: the edge
/// runs from `a`, at distance `da >= 0`, to `b`, at distance `db < 0`.
pub open spec fn crossing_coord(a: int, b: int, da: int, db: int) -> int {
    a + ((b - a) * da) / (da - db)
}

/// The point where the edge from `a` (inside, at distance `da`) to `b`
/// (outside, at distance `db`) crosses the plane.
pub open spec fn crossing(a: Vec3, b: Vec3, da: int, db: int) -> Vec3 {
    Vec3 {
        x: crossing_coord(a.x as int, b.x as int, da, db) as i64,
        y: crossing_coord(a.y as int, b.y as int, da, db) as i64,
        z: crossing_coord(a.z as int, b.z as int, da, db) as i64,
    }
}

/// The number of vertices of `t` that are inside.
pub open spec fn count_inside(point: V3, normal: V3, t: Triangle) -> nat {
    (if inside(point, normal, t.0@) { 1nat } else { 0nat })
        + (if inside(point, normal, t.1@) { 1nat } else { 0nat })
        + (if inside(point, normal, t.2@) { 1nat } else { 0nat })
}

/// What is left of `t` in the half-space: nothing, `t` itself, one triangle
/// at the single inside vertex, or two triangles that tile the quadrilateral
/// left when the single outside vertex is cut off. The vertices of each
/// triangle follow one another in the direction in which those of `t` do. A
/// single inside vertex keeps its place, with the crossing points of its two
/// edges in the places of the other two. The quadrilateral is split from the
/// crossing point on the edge that leaves the outside vertex.
pub open spec fn clipped(point: V3, normal: V3, t: Triangle) -> Seq<Triangle> {
    let (a, b, c) = t;
    let da = side(point, normal, a@);
    let db = side(point, normal, b@);
    let dc = side(point, normal, c@);
    if da >= 0 {
        if db >= 0 {
            if dc >= 0 {
                seq![t]
            } else {
                let ac = crossing(a, c, da, dc);
                let bc = crossing(b, c, db, dc);
                seq![(a, b, ac), (b, bc, ac)]
            }
        } else {
            if dc >= 0 {
                let ab = crossing(a, b, da, db);
                let cb = crossing(c, b, dc, db);
                seq![(a, ab, cb), (a, cb, c)]
            } else {
                let ab = crossing(a, b, da, db);
                let ac = crossing(a, c, da, dc);
                seq![(a, ab, ac)]
            }
        }
    } else {
        if db >= 0 {
            if dc >= 0 {
                let ba = crossing(b, a, db, da);
                let ca = crossing(c, a, dc, da);
                seq![(ba, b, c), (ba, c, ca)]
            } else {
                let ba = crossing(b, a, db, da);
                let bc = crossing(b, c, db, dc);
                seq![(ba, b, bc)]
            }
        } else {
            if dc >= 0 {
                let ca = crossing(c, a, dc, da);
                let cb = crossing(c, b, dc, db);
                seq![(ca, cb, c)]
            } else {
                Seq::<Triangle>::empty()
            }
        }
    }
}

/// One coordinate of a crossing point. It lies between the two ends.
fn crossing_coord_exec(a: i64, b: i64, da: i128, db: i128) -> (r: i64)
    requires
        -LIMIT <= a <= LIMIT,
        -LIMIT <= b <= LIMIT,
        0 <= da <= 12 * LIMIT_SQ,
        -12 * LIMIT_SQ <= db < 0,
    ensures
        r == crossing_coord(a as int, b as int, da as int, db as int),
        a <= b ==> a <= r <= b,
        b <= a ==> b <= r <= a,
{
    let k: i64 = b - a;
    proof {
        lemma_product_bound(k as int, da as int, 2 * LIMIT, 12 * LIMIT_SQ);
        lemma_limit_square();
        assert((2 * LIMIT) * (12 * LIMIT_SQ) == 24 * (LIMIT * LIMIT_SQ)) by (nonlinear_arith);
        assert(0x100_0000_0000int * 0x1_0000_0000_0000_0000_0000int
            == 0x100_0000_0000_0000_0000_0000_0000_0000int) by (nonlinear_arith);
    }
    let top: i128 = (k as i128) * da;
    let span: i128 = da - db;
    let q: i128 = floor_div(top, span);
    proof {
        lemma_share_between(k as int, da as int, span as int);
    }
    (a as i128 + q) as i64
}

/// The point where the edge from `a` to `b` crosses the plane.
fn crossing_exec(a: Vec3, b: Vec3, da: i128, db: i128) -> (r: Vec3)
    requires
        a.wf(),
        b.wf(),
        0 <= da <= 12 * LIMIT_SQ,
        -12 * LIMIT_SQ <= db < 0,
    ensures
        r == crossing(a, b, da as int, db as int),
        r.wf(),
{
    Vec3 {
        x: crossing_coord_exec(a.x, b.x, da, db),
        y: crossing_coord_exec(a.y, b.y, da, db),
        z: crossing_coord_exec(a.z, b.z, da, db),
    }
}

/// Clips `triangle` against the half-space through `plane_point` whose
/// inward normal is `plane_normal`.
pub fn triangle_clip_plane(plane_point: Vec3, plane_normal: Vec3, triangle: Triangle) -> (r:
    TriangleList)
    requires
        plane_point.wf(),
        plane_normal.wf(),
        triangle_wf(triangle),
    ensures
        r@ == clipped(plane_point@, plane_normal@, triangle),
        r@.len() <= 2,
        count_inside(plane_point@, plane_normal@, triangle) == 0 ==> r@.len() == 0,
        count_inside(plane_point@, plane_normal@, triangle) == 3 ==> r@ == seq![triangle],
        forall|i: int| 0 <= i < r@.len() ==> triangle_wf(#[trigger] r@[i]),
{
    let (a, b, c) = triangle;
    let da: i128 = dot_exact(plane_normal, vec_diff(a, plane_point));
    let db: i128 = dot_exact(plane_normal, vec_diff(b, plane_point));
    let dc: i128 = dot_exact(plane_normal, vec_diff(c, plane_point));
    let mut out = TriangleList::new();
    if da >= 0 {
        if db >= 0 {
            if dc >= 0 {
                out.push(triangle);
            } else {
                let bc = crossing_exec(b, c, db, dc);
                let ac = crossing_exec(a, c, da, dc);
                out.push((a, b, ac));
                out.push((b, bc, ac));
            }
        } else {
            if dc >= 0 {
                let ab = crossing_exec(a, b, da, db);
                let cb = crossing_exec(c, b, dc, db);
                out.push((a, ab, cb));
                out.push((a, cb, c));
            } else {
                let ab = crossing_exec(a, b, da, db);
                let ac = crossing_exec(a, c, da, dc);
                out.push((a, ab, ac));
            }
        }
    } else {
        if db >= 0 {
            if dc >= 0 {
                let ba = crossing_exec(b, a, db, da);
                let ca = crossing_exec(c, a, dc, da);
                out.push((ba, b, c));
                out.push((ba, c, ca));
            } else {
                let ba = crossing_exec(b, a, db, da);
                let bc = crossing_exec(b, c, db, dc);
                out.push((ba, b, bc));
            }
        } else {
            if dc >= 0 {
                let ca = crossing_exec(c, a, dc, da);
                let cb = crossing_exec(c, b, dc, db);
                out.push((ca, cb, c));
            }
        }
    }
    assert(out@ =~= clipped(plane_point@, plane_normal@, triangle));
    out
}

/// A triangle with no vertex inside is discarded, one with every vertex
/// inside is returned as it is, and in between one inside vertex leaves one
/// triangle and two leave two.
pub proof fn lemma_clip_by_count(point: V3, normal: V3, t: Triangle)
    ensures
        count_inside(point, normal, t) == 0 ==> clipped(point, normal, t) == Seq::<Triangle>::empty(),
        count_inside(point, normal, t) == 3 ==> clipped(point, normal, t) == seq![t],
        count_inside(point, normal, t) == 1 ==> clipped(point, normal, t).len() == 1,
        count_inside(point, normal, t) == 2 ==> clipped(point, normal, t).len() == 2,
{
}

/// A share `da / span` of `k`, with `0 <= da <= span`, rounded down, lies
/// between zero and `k`.
pub proof fn lemma_share_between(k: int, da: int, span: int)
    requires
        0 <= da <= span,
        span > 0,
    ensures
        k >= 0 ==> 0 <= (k * da) / span <= k,
        k <= 0 ==> k <= (k * da) / span <= 0,
{
    lemma_div_multiples_vanish(k, span);
    assert(0int / span == 0) by (nonlinear_arith)
        requires
            span > 0,
    ;
    if k >= 0 {
        assert(0 <= k * da <= k * span) by (nonlinear_arith)
            requires
                k >= 0,
                0 <= da <= span,
        ;
        lemma_div_is_ordered(0, k * da, span);
        lemma_div_is_ordered(k * da, k * span, span);
        assert(k * span == span * k) by (nonlinear_arith);
    }
    if k <= 0 {
        assert(k * span <= k * da <= 0) by (nonlinear_arith)
            requires
                k <= 0,
                0 <= da <= span,
        ;
        lemma_div_is_ordered(k * da, 0, span);
        lemma_div_is_ordered(k * span, k * da, span);
        assert(k * span == span * k) by (nonlinear_arith);
    }
}

} // verus!
