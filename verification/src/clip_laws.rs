//! What clipping keeps: bounds on coordinates, and which side of an
//! axis-aligned plane the result lies on.

use vstd::prelude::*;
use vstd::arithmetic::div_mod::{lemma_div_multiples_vanish, lemma_fundamental_div_mod};
use crate::clip::{clipped, crossing, crossing_coord, lemma_share_between, side};
use crate::list::Triangle;
use crate::scalar::ONE;
use crate::vector::{Vec3, V3};

verus! {

/// Whether each coordinate of `v` lies between those of `lo` and `hi`.
pub open spec fn in_box(v: Vec3, lo: V3, hi: V3) -> bool {
    &&& lo.x <= v.x <= hi.x
    &&& lo.y <= v.y <= hi.y
    &&& lo.z <= v.z <= hi.z
}

/// Whether the three vertices of a triangle lie in a box.
pub open spec fn triangle_in_box(t: Triangle, lo: V3, hi: V3) -> bool {
    in_box(t.0, lo, hi) && in_box(t.1, lo, hi) && in_box(t.2, lo, hi)
}

/// Whether every triangle of a list lies in a box.
pub open spec fn all_in_box(ts: Seq<Triangle>, lo: V3, hi: V3) -> bool {
    forall|i: int| 0 <= i < ts.len() ==> triangle_in_box(#[trigger] ts[i], lo, hi)
}

/// The coordinate of `v` along an axis: zero for `x`, one for `y`, else `z`.
pub open spec fn coord(v: V3, axis: int) -> int {
    if axis == 0 {
        v.x
    } else if axis == 1 {
        v.y
    } else {
        v.z
    }
}

/// The vector along an axis with the given coordinate.
pub open spec fn along(axis: int, value: int) -> V3 {
    V3 {
        x: if axis == 0 { value } else { 0 },
        y: if axis == 1 { value } else { 0 },
        z: if axis == 0 || axis == 1 { 0 } else { value },
    }
}

/// Whether `v` is on the kept side of the plane across an axis at `offset`:
/// at or above it for a `sign` of one, at or below it for minus one.
pub open spec fn past(v: Vec3, axis: int, sign: int, offset: int) -> bool {
    sign * (coord(v@, axis) - offset) >= 0
}

/// Whether the three vertices of a triangle are on the kept side.
pub open spec fn triangle_past(t: Triangle, axis: int, sign: int, offset: int) -> bool {
    past(t.0, axis, sign, offset) && past(t.1, axis, sign, offset) && past(t.2, axis, sign, offset)
}

/// Whether every triangle of a list is on the kept side.
pub open spec fn all_past(ts: Seq<Triangle>, axis: int, sign: int, offset: int) -> bool {
    forall|i: int| 0 <= i < ts.len() ==> triangle_past(#[trigger] ts[i], axis, sign, offset)
}

/// A crossing coordinate lies between the coordinates of the two ends.
pub proof fn lemma_crossing_coord_between(a: int, b: int, da: int, db: int)
    requires
        da >= 0,
        db < 0,
    ensures
        a <= b ==> a <= crossing_coord(a, b, da, db) <= b,
        b <= a ==> b <= crossing_coord(a, b, da, db) <= a,
{
    lemma_share_between(b - a, da, da - db);
}

/// A crossing coordinate is the exact one rounded down: it lies less than one
/// raw unit below the point where the edge meets the plane.
pub proof fn lemma_crossing_coord_rounding(a: int, b: int, da: int, db: int)
    requires
        da >= 0,
        db < 0,
    ensures
        (crossing_coord(a, b, da, db) - a) * (da - db) <= (b - a) * da,
        (b - a) * da < (crossing_coord(a, b, da, db) - a + 1) * (da - db),
{
    let top = (b - a) * da;
    let span = da - db;
    let q = top / span;
    let r = top % span;
    lemma_fundamental_div_mod(top, span);
    assert(q * span <= top < (q + 1) * span) by (nonlinear_arith)
        requires
            top == span * q + r,
            0 <= r < span,
    ;
}

/// A crossing point lies in every box that holds the two ends of its edge.
pub proof fn lemma_crossing_in_box(a: Vec3, b: Vec3, da: int, db: int, lo: V3, hi: V3)
    requires
        da >= 0,
        db < 0,
        in_box(a, lo, hi),
        in_box(b, lo, hi),
    ensures
        in_box(crossing(a, b, da, db), lo, hi),
{
    lemma_crossing_coord_between(a.x as int, b.x as int, da, db);
    lemma_crossing_coord_between(a.y as int, b.y as int, da, db);
    lemma_crossing_coord_between(a.z as int, b.z as int, da, db);
}

/// Clipping never leaves a box that holds the triangle.
pub proof fn lemma_clipped_in_box(point: V3, normal: V3, t: Triangle, lo: V3, hi: V3)
    requires
        triangle_in_box(t, lo, hi),
    ensures
        all_in_box(clipped(point, normal, t), lo, hi),
{
    let (a, b, c) = t;
    let da = side(point, normal, a@);
    let db = side(point, normal, b@);
    let dc = side(point, normal, c@);
    if da >= 0 && db < 0 {
        lemma_crossing_in_box(a, b, da, db, lo, hi);
    }
    if da >= 0 && dc < 0 {
        lemma_crossing_in_box(a, c, da, dc, lo, hi);
    }
    if db >= 0 && da < 0 {
        lemma_crossing_in_box(b, a, db, da, lo, hi);
    }
    if db >= 0 && dc < 0 {
        lemma_crossing_in_box(b, c, db, dc, lo, hi);
    }
    if dc >= 0 && da < 0 {
        lemma_crossing_in_box(c, a, dc, da, lo, hi);
    }
    if dc >= 0 && db < 0 {
        lemma_crossing_in_box(c, b, dc, db, lo, hi);
    }
}

/// The distance of a vertex from a plane across an axis.
pub proof fn lemma_axis_side(v: Vec3, axis: int, sign: int, offset: int)
    requires
        sign == 1 || sign == -1,
    ensures
        side(along(axis, offset), along(axis, sign * ONE), v@) == sign * ONE * (coord(v@, axis)
            - offset),
        side(along(axis, offset), along(axis, sign * ONE), v@) >= 0 <==> past(
            v,
            axis,
            sign,
            offset,
        ),
{
    let d = coord(v@, axis) - offset;
    assert(sign * ONE * d == ONE * (sign * d)) by (nonlinear_arith);
}

/// Across an axis, the crossing point of an edge lies exactly on the plane.
pub proof fn lemma_crossing_on_plane(a: Vec3, b: Vec3, axis: int, sign: int, offset: int)
    requires
        sign == 1 || sign == -1,
        past(a, axis, sign, offset),
        !past(b, axis, sign, offset),
        a.wf(),
        b.wf(),
    ensures
        coord(
            crossing(
                a,
                b,
                side(along(axis, offset), along(axis, sign * ONE), a@),
                side(along(axis, offset), along(axis, sign * ONE), b@),
            )@,
            axis,
        ) == offset,
{
    lemma_axis_side(a, axis, sign, offset);
    lemma_axis_side(b, axis, sign, offset);
    let ca = coord(a@, axis);
    let cb = coord(b@, axis);
    let da = sign * ONE * (ca - offset);
    let db = sign * ONE * (cb - offset);
    let span = da - db;
    assert((cb - ca) * da == span * (offset - ca)) by (nonlinear_arith)
        requires
            da == sign * ONE * (ca - offset),
            db == sign * ONE * (cb - offset),
            span == da - db,
    ;
    lemma_div_multiples_vanish(offset - ca, span);
    assert(crossing_coord(ca, cb, da, db) == offset);
}

/// Clipping against a plane across an axis leaves every vertex on the kept
/// side of it.
pub proof fn lemma_clipped_past(t: Triangle, axis: int, sign: int, offset: int)
    requires
        sign == 1 || sign == -1,
        t.0.wf(),
        t.1.wf(),
        t.2.wf(),
    ensures
        all_past(
            clipped(along(axis, offset), along(axis, sign * ONE), t),
            axis,
            sign,
            offset,
        ),
{
    let (a, b, c) = t;
    lemma_axis_side(a, axis, sign, offset);
    lemma_axis_side(b, axis, sign, offset);
    lemma_axis_side(c, axis, sign, offset);
    let ia = past(a, axis, sign, offset);
    let ib = past(b, axis, sign, offset);
    let ic = past(c, axis, sign, offset);
    assert(sign * (offset - offset) >= 0);
    if ia && !ib {
        lemma_crossing_on_plane(a, b, axis, sign, offset);
    }
    if ia && !ic {
        lemma_crossing_on_plane(a, c, axis, sign, offset);
    }
    if ib && !ia {
        lemma_crossing_on_plane(b, a, axis, sign, offset);
    }
    if ib && !ic {
        lemma_crossing_on_plane(b, c, axis, sign, offset);
    }
    if ic && !ia {
        lemma_crossing_on_plane(c, a, axis, sign, offset);
    }
    if ic && !ib {
        lemma_crossing_on_plane(c, b, axis, sign, offset);
    }
}

} // verus!
