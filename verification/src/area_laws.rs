//! Area and winding under clipping.
//!
//! Twice the area of a triangle, as a vector along its normal, is the cross
//! product of two of its edges. Clipping scales that vector by the share of
//! the triangle that the half-space keeps, and never turns it around. The
//! laws here are stated for clips in which every crossing point is exact,
//! that is, in which no coordinate of a crossing point had to be rounded.

use vstd::prelude::*;
use vstd::arithmetic::div_mod::lemma_fundamental_div_mod;
use crate::clip::{clipped, crossing, crossing_coord, side};
use crate::clip_laws::lemma_crossing_coord_between;
use crate::list::Triangle;
use crate::pipeline::area_vector;
use crate::vector::{Vec3, V3};

verus! {

/// Twice the area of the triangle `a`, `b`, `c`, as a vector.
pub open spec fn area3(a: V3, b: V3, c: V3) -> V3 {
    b.minus(a).cross(c.minus(a))
}

/// The sum of the area vectors of a list of triangles.
pub open spec fn area_sum(ts: Seq<Triangle>) -> V3
    decreases ts.len(),
{
    if ts.len() == 0 {
        V3 { x: 0, y: 0, z: 0 }
    } else {
        area_sum(ts.drop_last()).plus(area_vector(ts.last()))
    }
}

/// Whether the crossing point of the edge from `a`, at distance `da`, to
/// `b`, at distance `db`, is exact.
pub open spec fn crossing_exact(a: Vec3, b: Vec3, da: int, db: int) -> bool {
    &&& ((b.x - a.x) * da) % (da - db) == 0
    &&& ((b.y - a.y) * da) % (da - db) == 0
    &&& ((b.z - a.z) * da) % (da - db) == 0
}

/// Whether the crossing point of an edge of a triangle, if the edge crosses
/// the plane, is exact.
pub open spec fn edge_exact(point: V3, normal: V3, a: Vec3, b: Vec3) -> bool {
    let da = side(point, normal, a@);
    let db = side(point, normal, b@);
    &&& (da >= 0 && db < 0 ==> crossing_exact(a, b, da, db))
    &&& (db >= 0 && da < 0 ==> crossing_exact(b, a, db, da))
}

/// Whether a clip rounds nothing.
pub open spec fn clip_exact(point: V3, normal: V3, t: Triangle) -> bool {
    &&& edge_exact(point, normal, t.0, t.1)
    &&& edge_exact(point, normal, t.1, t.2)
    &&& edge_exact(point, normal, t.2, t.0)
}

/// The share of a triangle that a half-space keeps, as a fraction: the
/// numerator, then the positive denominator. The three numbers are the
/// distances of the vertices from the plane.
///
/// Where one vertex is inside, the half-space keeps the corner at that
/// vertex, cut at the fractions `k / (k - d1)` and `k / (k - d2)` of its two
/// edges, and a corner cut at two fractions of its edges has their product
/// as its share of the area. Where one vertex is outside, the half-space
/// keeps all but the corner at that vertex.
pub open spec fn kept_share(da: int, db: int, dc: int) -> (int, int) {
    if da >= 0 && db >= 0 && dc >= 0 {
        (1, 1)
    } else if da < 0 && db < 0 && dc < 0 {
        (0, 1)
    } else if da >= 0 && db < 0 && dc < 0 {
        (da * da, (da - db) * (da - dc))
    } else if db >= 0 && da < 0 && dc < 0 {
        (db * db, (db - da) * (db - dc))
    } else if dc >= 0 && da < 0 && db < 0 {
        (dc * dc, (dc - da) * (dc - db))
    } else if da < 0 {
        ((db - da) * (dc - da) - da * da, (db - da) * (dc - da))
    } else if db < 0 {
        ((da - db) * (dc - db) - db * db, (da - db) * (dc - db))
    } else {
        ((da - dc) * (db - dc) - dc * dc, (da - dc) * (db - dc))
    }
}

/// The two-dimensional cross product.
pub open spec fn wedge(p1: int, p2: int, q1: int, q2: int) -> int {
    p1 * q2 - p2 * q1
}

/// The area vector does not depend on which vertex comes first.
pub proof fn lemma_area_cyclic(a: V3, b: V3, c: V3)
    ensures
        area3(a, b, c) == area3(b, c, a),
        area3(a, b, c) == area3(c, a, b),
{
    lemma_wedge_cyclic(a.y, a.z, b.y, b.z, c.y, c.z);
    lemma_wedge_cyclic(a.z, a.x, b.z, b.x, c.z, c.x);
    lemma_wedge_cyclic(a.x, a.y, b.x, b.y, c.x, c.y);
}

/// The cyclic symmetry of the area, in two coordinates.
pub proof fn lemma_wedge_cyclic(a1: int, a2: int, b1: int, b2: int, c1: int, c2: int)
    ensures
        wedge(b1 - a1, b2 - a2, c1 - a1, c2 - a2) == wedge(c1 - b1, c2 - b2, a1 - b1, a2 - b2),
        wedge(b1 - a1, b2 - a2, c1 - a1, c2 - a2) == wedge(a1 - c1, a2 - c2, b1 - c1, b2 - c2),
{
    assert(wedge(b1 - a1, b2 - a2, c1 - a1, c2 - a2) == wedge(c1 - b1, c2 - b2, a1 - b1, a2 - b2))
        by (nonlinear_arith);
    assert(wedge(b1 - a1, b2 - a2, c1 - a1, c2 - a2) == wedge(a1 - c1, a2 - c2, b1 - c1, b2 - c2))
        by (nonlinear_arith);
}

/// A corner cut at the share `k / d1` of one edge and `k / d2` of the other,
/// in two coordinates: `u` and `v` are the cut edges, `e` and `f` the whole
/// ones.
pub proof fn lemma_wedge_corner(
    u1: int,
    u2: int,
    v1: int,
    v2: int,
    e1: int,
    e2: int,
    f1: int,
    f2: int,
    d1: int,
    d2: int,
    k: int,
)
    requires
        u1 * d1 == e1 * k,
        u2 * d1 == e2 * k,
        v1 * d2 == f1 * k,
        v2 * d2 == f2 * k,
    ensures
        wedge(u1, u2, v1, v2) * (d1 * d2) == wedge(e1, e2, f1, f2) * (k * k),
{
    assert((u1 * v2) * (d1 * d2) == (u1 * d1) * (v2 * d2)) by (nonlinear_arith);
    assert((u2 * v1) * (d1 * d2) == (u2 * d1) * (v1 * d2)) by (nonlinear_arith);
    assert((e1 * k) * (f2 * k) == (e1 * f2) * (k * k)) by (nonlinear_arith);
    assert((e2 * k) * (f1 * k) == (e2 * f1) * (k * k)) by (nonlinear_arith);
    assert((u1 * v2 - u2 * v1) * (d1 * d2) == (u1 * v2) * (d1 * d2) - (u2 * v1) * (d1 * d2))
        by (nonlinear_arith);
    assert((e1 * f2 - e2 * f1) * (k * k) == (e1 * f2) * (k * k) - (e2 * f1) * (k * k))
        by (nonlinear_arith);
}

/// The first triangle of a quadrilateral, in two coordinates: the outside
/// vertex `o` is cut off, `i` is the crossing point on the edge from `p` to
/// `o`, and the triangle is `i`, `p`, `q`.
pub proof fn lemma_wedge_first(
    o1: int,
    o2: int,
    p1: int,
    p2: int,
    q1: int,
    q2: int,
    i1: int,
    i2: int,
    d: int,
    dp: int,
)
    requires
        (i1 - p1) * d == (o1 - p1) * dp,
        (i2 - p2) * d == (o2 - p2) * dp,
    ensures
        wedge(p1 - i1, p2 - i2, q1 - i1, q2 - i2) * d == wedge(p1 - o1, p2 - o2, q1 - o1, q2 - o2)
            * dp,
{
    let u1 = i1 - p1;
    let u2 = i2 - p2;
    let h1 = q1 - p1;
    let h2 = q2 - p2;
    let g1 = o1 - p1;
    let g2 = o2 - p2;
    assert(wedge(p1 - i1, p2 - i2, q1 - i1, q2 - i2) == wedge(h1, h2, u1, u2)) by (nonlinear_arith)
        requires
            u1 == i1 - p1,
            u2 == i2 - p2,
            h1 == q1 - p1,
            h2 == q2 - p2,
    ;
    assert(wedge(h1, h2, u1, u2) * d == h1 * (u2 * d) - h2 * (u1 * d)) by (nonlinear_arith);
    assert(h1 * (g2 * dp) - h2 * (g1 * dp) == wedge(h1, h2, g1, g2) * dp) by (nonlinear_arith);
    assert(wedge(h1, h2, g1, g2) == wedge(p1 - o1, p2 - o2, q1 - o1, q2 - o2)) by (nonlinear_arith)
        requires
            h1 == q1 - p1,
            h2 == q2 - p2,
            g1 == o1 - p1,
            g2 == o2 - p2,
    ;
}

/// The second triangle of a quadrilateral, in two coordinates: the outside
/// vertex `o`, at distance `-m`, is cut off, `i` and `j` are the crossing
/// points on its edges to `p` and to `q`, and the triangle is `i`, `q`, `j`.
pub proof fn lemma_wedge_second(
    o1: int,
    o2: int,
    p1: int,
    p2: int,
    q1: int,
    q2: int,
    i1: int,
    i2: int,
    j1: int,
    j2: int,
    d1: int,
    d2: int,
    m: int,
    dq: int,
)
    requires
        (i1 - o1) * d1 == (p1 - o1) * m,
        (i2 - o2) * d1 == (p2 - o2) * m,
        (j1 - o1) * d2 == (q1 - o1) * m,
        (j2 - o2) * d2 == (q2 - o2) * m,
        d2 == dq + m,
    ensures
        wedge(q1 - i1, q2 - i2, j1 - i1, j2 - i2) * (d1 * d2) == wedge(
            p1 - o1,
            p2 - o2,
            q1 - o1,
            q2 - o2,
        ) * (m * dq),
{
    let x1 = i1 - o1;
    let x2 = i2 - o2;
    let y1 = j1 - o1;
    let y2 = j2 - o2;
    let e1 = p1 - o1;
    let e2 = p2 - o2;
    let f1 = q1 - o1;
    let f2 = q2 - o2;
    // The triangle, seen from the outside vertex.
    assert(wedge(q1 - i1, q2 - i2, j1 - i1, j2 - i2) == wedge(f1, f2, y1, y2) - wedge(
        f1,
        f2,
        x1,
        x2,
    ) - wedge(x1, x2, y1, y2)) by (nonlinear_arith)
        requires
            x1 == i1 - o1,
            x2 == i2 - o2,
            y1 == j1 - o1,
            y2 == j2 - o2,
            f1 == q1 - o1,
            f2 == q2 - o2,
    ;
    // The far crossing point lies on the edge to `q`.
    assert(wedge(f1, f2, y1, y2) * d2 == f1 * (y2 * d2) - f2 * (y1 * d2)) by (nonlinear_arith);
    assert(f1 * (f2 * m) - f2 * (f1 * m) == 0) by (nonlinear_arith);
    assert(wedge(f1, f2, y1, y2) * d2 == 0);
    assert(wedge(f1, f2, y1, y2) * (d1 * d2) == (wedge(f1, f2, y1, y2) * d2) * d1)
        by (nonlinear_arith);
    assert(wedge(f1, f2, y1, y2) * (d1 * d2) == 0);
    // The near crossing point lies on the edge to `p`.
    assert(wedge(f1, f2, x1, x2) * d1 == f1 * (x2 * d1) - f2 * (x1 * d1)) by (nonlinear_arith);
    assert(f1 * (e2 * m) - f2 * (e1 * m) == -(wedge(e1, e2, f1, f2) * m)) by (nonlinear_arith);
    assert(wedge(f1, f2, x1, x2) * (d1 * d2) == (wedge(f1, f2, x1, x2) * d1) * d2)
        by (nonlinear_arith);
    assert((-(wedge(e1, e2, f1, f2) * m)) * d2 == -(wedge(e1, e2, f1, f2) * (m * d2)))
        by (nonlinear_arith);
    // The corner that is cut off.
    lemma_wedge_corner(x1, x2, y1, y2, e1, e2, f1, f2, d1, d2, m);
    let n = wedge(e1, e2, f1, f2);
    assert(n * (m * d2) - n * (m * m) == n * (m * dq)) by (nonlinear_arith)
        requires
            d2 == dq + m,
    ;
    let t = wedge(q1 - i1, q2 - i2, j1 - i1, j2 - i2);
    let w_fy = wedge(f1, f2, y1, y2);
    let w_fx = wedge(f1, f2, x1, x2);
    let w_xy = wedge(x1, x2, y1, y2);
    assert(t * (d1 * d2) == w_fy * (d1 * d2) - w_fx * (d1 * d2) - w_xy * (d1 * d2))
        by (nonlinear_arith)
        requires
            t == w_fy - w_fx - w_xy,
    ;
}

/// A corner cut at the share `k / d1` of one edge and `k / d2` of the other
/// has the product of the two shares as its share of the area.
pub proof fn lemma_corner(p: V3, q: V3, r: V3, i: V3, j: V3, d1: int, d2: int, k: int)
    requires
        i.minus(p).times(d1) == q.minus(p).times(k),
        j.minus(p).times(d2) == r.minus(p).times(k),
    ensures
        area3(p, i, j).times(d1 * d2) == area3(p, q, r).times(k * k),
{
    let u = i.minus(p);
    let v = j.minus(p);
    let e = q.minus(p);
    let f = r.minus(p);
    assert(u.times(d1).x == e.times(k).x);
    assert(u.times(d1).y == e.times(k).y);
    assert(u.times(d1).z == e.times(k).z);
    assert(v.times(d2).x == f.times(k).x);
    assert(v.times(d2).y == f.times(k).y);
    assert(v.times(d2).z == f.times(k).z);
    lemma_wedge_corner(u.y, u.z, v.y, v.z, e.y, e.z, f.y, f.z, d1, d2, k);
    lemma_wedge_corner(u.z, u.x, v.z, v.x, e.z, e.x, f.z, f.x, d1, d2, k);
    lemma_wedge_corner(u.x, u.y, v.x, v.y, e.x, e.y, f.x, f.y, d1, d2, k);
}

/// The first triangle of the quadrilateral left when the vertex `o` is cut
/// off: `i` is the crossing point on the edge from `p` to `o`.
pub proof fn lemma_quad_first(o: V3, p: V3, q: V3, i: V3, d: int, dp: int)
    requires
        i.minus(p).times(d) == o.minus(p).times(dp),
    ensures
        area3(i, p, q).times(d) == area3(o, p, q).times(dp),
{
    assert(i.minus(p).times(d).x == o.minus(p).times(dp).x);
    assert(i.minus(p).times(d).y == o.minus(p).times(dp).y);
    assert(i.minus(p).times(d).z == o.minus(p).times(dp).z);
    lemma_wedge_first(o.y, o.z, p.y, p.z, q.y, q.z, i.y, i.z, d, dp);
    lemma_wedge_first(o.z, o.x, p.z, p.x, q.z, q.x, i.z, i.x, d, dp);
    lemma_wedge_first(o.x, o.y, p.x, p.y, q.x, q.y, i.x, i.y, d, dp);
}

/// The second triangle of the quadrilateral left when the vertex `o`, at
/// distance `-m`, is cut off: `i` and `j` are the crossing points on its
/// edges to `p` and to `q`.
pub proof fn lemma_quad_second(
    o: V3,
    p: V3,
    q: V3,
    i: V3,
    j: V3,
    d1: int,
    d2: int,
    m: int,
    dq: int,
)
    requires
        i.minus(o).times(d1) == p.minus(o).times(m),
        j.minus(o).times(d2) == q.minus(o).times(m),
        d2 == dq + m,
    ensures
        area3(i, q, j).times(d1 * d2) == area3(o, p, q).times(m * dq),
{
    assert(i.minus(o).times(d1).x == p.minus(o).times(m).x);
    assert(i.minus(o).times(d1).y == p.minus(o).times(m).y);
    assert(i.minus(o).times(d1).z == p.minus(o).times(m).z);
    assert(j.minus(o).times(d2).x == q.minus(o).times(m).x);
    assert(j.minus(o).times(d2).y == q.minus(o).times(m).y);
    assert(j.minus(o).times(d2).z == q.minus(o).times(m).z);
    lemma_wedge_second(o.y, o.z, p.y, p.z, q.y, q.z, i.y, i.z, j.y, j.z, d1, d2, m, dq);
    lemma_wedge_second(o.z, o.x, p.z, p.x, q.z, q.x, i.z, i.x, j.z, j.x, d1, d2, m, dq);
    lemma_wedge_second(o.x, o.y, p.x, p.y, q.x, q.y, i.x, i.y, j.x, j.y, d1, d2, m, dq);
}

/// One coordinate of an exact crossing point, seen from either end of its
/// edge.
pub proof fn lemma_exact_coord(a: int, b: int, da: int, db: int)
    requires
        da >= 0,
        db < 0,
        ((b - a) * da) % (da - db) == 0,
    ensures
        (crossing_coord(a, b, da, db) - a) * (da - db) == (b - a) * da,
        (crossing_coord(a, b, da, db) - b) * (da - db) == (a - b) * (-db),
{
    let top = (b - a) * da;
    let span = da - db;
    let q = top / span;
    lemma_fundamental_div_mod(top, span);
    assert(q * span == top) by (nonlinear_arith)
        requires
            top == span * q + 0,
    ;
    assert((q + a - b) * span == (a - b) * (-db)) by (nonlinear_arith)
        requires
            q * span == (b - a) * da,
            span == da - db,
    ;
}

/// An exact crossing point divides its edge in the ratio of the distances of
/// the two ends.
pub proof fn lemma_exact_crossing(a: Vec3, b: Vec3, da: int, db: int)
    requires
        da >= 0,
        db < 0,
        crossing_exact(a, b, da, db),
    ensures
        crossing(a, b, da, db)@.minus(a@).times(da - db) == b@.minus(a@).times(da),
        crossing(a, b, da, db)@.minus(b@).times(da - db) == a@.minus(b@).times(-db),
{
    lemma_crossing_coord_between(a.x as int, b.x as int, da, db);
    lemma_crossing_coord_between(a.y as int, b.y as int, da, db);
    lemma_crossing_coord_between(a.z as int, b.z as int, da, db);
    lemma_exact_coord(a.x as int, b.x as int, da, db);
    lemma_exact_coord(a.y as int, b.y as int, da, db);
    lemma_exact_coord(a.z as int, b.z as int, da, db);
}

/// Whether the vector `out` is `orig` scaled by a fraction that is not
/// negative: it points the same way, or is zero.
pub open spec fn scaled_down(out: V3, orig: V3) -> bool {
    exists|num: int, den: int|
        #![trigger out.times(den), orig.times(num)]
        num >= 0 && den > 0 && out.times(den) == orig.times(num)
}

/// Whether the vector `out` is `orig` scaled by a positive fraction.
pub open spec fn scaled_positive(out: V3, orig: V3) -> bool {
    exists|num: int, den: int|
        #![trigger out.times(den), orig.times(num)]
        num > 0 && den > 0 && out.times(den) == orig.times(num)
}

/// Records a fraction by which `out` is `orig` scaled.
pub proof fn lemma_scaled_by(out: V3, orig: V3, num: int, den: int)
    requires
        den > 0,
        num >= 0,
        out.times(den) == orig.times(num),
    ensures
        scaled_down(out, orig),
        num > 0 ==> scaled_positive(out, orig),
{
}

/// The corner at the single inside vertex `p`, with `q` and `r` outside.
pub proof fn lemma_corner_kept(p: Vec3, q: Vec3, r: Vec3, dp: int, dq: int, dr: int)
    requires
        dp >= 0,
        dq < 0,
        dr < 0,
        crossing_exact(p, q, dp, dq),
        crossing_exact(p, r, dp, dr),
    ensures
        area3(p@, crossing(p, q, dp, dq)@, crossing(p, r, dp, dr)@).times((dp - dq) * (dp - dr))
            == area3(p@, q@, r@).times(dp * dp),
        (dp - dq) * (dp - dr) > 0,
        0 <= dp * dp <= (dp - dq) * (dp - dr),
        dp > 0 ==> dp * dp > 0,
{
    lemma_exact_crossing(p, q, dp, dq);
    lemma_exact_crossing(p, r, dp, dr);
    lemma_corner(
        p@,
        q@,
        r@,
        crossing(p, q, dp, dq)@,
        crossing(p, r, dp, dr)@,
        dp - dq,
        dp - dr,
        dp,
    );
    assert((dp - dq) * (dp - dr) > 0 && 0 <= dp * dp <= (dp - dq) * (dp - dr)) by (nonlinear_arith)
        requires
            dp >= 0,
            dq < 0,
            dr < 0,
    ;
    if dp > 0 {
        assert(dp * dp > 0) by (nonlinear_arith)
            requires
                dp > 0,
        ;
    }
}

/// The two triangles left when the single outside vertex `o` is cut off,
/// with `p` and `q` inside.
pub proof fn lemma_quad_kept(o: Vec3, p: Vec3, q: Vec3, d_o: int, dp: int, dq: int)
    requires
        d_o < 0,
        dp >= 0,
        dq >= 0,
        crossing_exact(p, o, dp, d_o),
        crossing_exact(q, o, dq, d_o),
    ensures
        area3(crossing(p, o, dp, d_o)@, p@, q@).times(dp - d_o) == area3(o@, p@, q@).times(dp),
        area3(crossing(p, o, dp, d_o)@, q@, crossing(q, o, dq, d_o)@).times(
            (dp - d_o) * (dq - d_o),
        ) == area3(o@, p@, q@).times((-d_o) * dq),
        dp - d_o > 0,
        (dp - d_o) * (dq - d_o) > 0,
        (-d_o) * dq >= 0,
        dq > 0 ==> (-d_o) * dq > 0,
{
    lemma_exact_crossing(p, o, dp, d_o);
    lemma_exact_crossing(q, o, dq, d_o);
    let i = crossing(p, o, dp, d_o)@;
    let j = crossing(q, o, dq, d_o)@;
    lemma_quad_first(o@, p@, q@, i, dp - d_o, dp);
    lemma_quad_second(o@, p@, q@, i, j, dp - d_o, dq - d_o, -d_o, dq);
    assert((dp - d_o) * (dq - d_o) > 0 && (-d_o) * dq >= 0) by (nonlinear_arith)
        requires
            d_o < 0,
            dp >= 0,
            dq >= 0,
    ;
    if dq > 0 {
        assert((-d_o) * dq > 0) by (nonlinear_arith)
            requires
                d_o < 0,
                dq > 0,
        ;
    }
}

/// Winding is preserved. In a clip that rounds nothing, the area vector of
/// every triangle that is left is the area vector of the clipped triangle
/// scaled by a fraction that is not negative: it is wound as the clipped
/// triangle is, or has no area. Where no vertex lies on the plane itself the fraction
/// is positive.
pub proof fn lemma_clip_preserves_winding(point: V3, normal: V3, t: Triangle, i: int)
    requires
        clip_exact(point, normal, t),
        0 <= i < clipped(point, normal, t).len(),
    ensures
        scaled_down(area_vector(clipped(point, normal, t)[i]), area_vector(t)),
        side(point, normal, t.0@) != 0 && side(point, normal, t.1@) != 0 && side(
            point,
            normal,
            t.2@,
        ) != 0 ==> scaled_positive(area_vector(clipped(point, normal, t)[i]), area_vector(t)),
{
    let (a, b, c) = t;
    let da = side(point, normal, a@);
    let db = side(point, normal, b@);
    let dc = side(point, normal, c@);
    let out = area_vector(clipped(point, normal, t)[i]);
    let orig = area_vector(t);
    assert(orig == area3(a@, b@, c@));
    lemma_area_cyclic(a@, b@, c@);
    if da >= 0 && db >= 0 && dc >= 0 {
        assert(out.times(1) == orig.times(1));
        lemma_scaled_by(out, orig, 1, 1);
    } else if da >= 0 && db < 0 && dc < 0 {
        lemma_corner_kept(a, b, c, da, db, dc);
        lemma_scaled_by(out, orig, da * da, (da - db) * (da - dc));
    } else if db >= 0 && da < 0 && dc < 0 {
        lemma_corner_kept(b, c, a, db, dc, da);
        let ba = crossing(b, a, db, da)@;
        let bc = crossing(b, c, db, dc)@;
        lemma_area_cyclic(ba, b@, bc);
        lemma_scaled_by(out, orig, db * db, (db - dc) * (db - da));
    } else if dc >= 0 && da < 0 && db < 0 {
        lemma_corner_kept(c, a, b, dc, da, db);
        let ca = crossing(c, a, dc, da)@;
        let cb = crossing(c, b, dc, db)@;
        lemma_area_cyclic(ca, cb, c@);
        lemma_scaled_by(out, orig, dc * dc, (dc - da) * (dc - db));
    } else if da < 0 && db >= 0 && dc >= 0 {
        lemma_quad_kept(a, b, c, da, db, dc);
        if i == 0 {
            lemma_scaled_by(out, orig, db, db - da);
        } else {
            lemma_scaled_by(out, orig, (-da) * dc, (db - da) * (dc - da));
        }
    } else if db < 0 && da >= 0 && dc >= 0 {
        lemma_quad_kept(b, c, a, db, dc, da);
        let ab = crossing(a, b, da, db)@;
        let cb = crossing(c, b, dc, db)@;
        if i == 0 {
            lemma_area_cyclic(a@, ab, cb);
            lemma_scaled_by(out, orig, (-db) * da, (dc - db) * (da - db));
        } else {
            lemma_area_cyclic(a@, cb, c@);
            lemma_scaled_by(out, orig, dc, dc - db);
        }
    } else if dc < 0 && da >= 0 && db >= 0 {
        lemma_quad_kept(c, a, b, dc, da, db);
        let ac = crossing(a, c, da, dc)@;
        let bc = crossing(b, c, db, dc)@;
        if i == 0 {
            lemma_area_cyclic(a@, b@, ac);
            lemma_scaled_by(out, orig, da, da - dc);
        } else {
            lemma_area_cyclic(b@, bc, ac);
            lemma_scaled_by(out, orig, (-dc) * db, (da - dc) * (db - dc));
        }
    }
}

/// Scaling both sides of a proportion by the same number keeps it.
pub proof fn lemma_times_scale(x: V3, n: V3, d: int, k: int, e: int)
    requires
        x.times(d) == n.times(k),
    ensures
        x.times(d * e) == n.times(k * e),
{
    assert(x.times(d).x == n.times(k).x);
    assert(x.times(d).y == n.times(k).y);
    assert(x.times(d).z == n.times(k).z);
    assert(x.x * (d * e) == (x.x * d) * e && n.x * (k * e) == (n.x * k) * e) by (nonlinear_arith);
    assert(x.y * (d * e) == (x.y * d) * e && n.y * (k * e) == (n.y * k) * e) by (nonlinear_arith);
    assert(x.z * (d * e) == (x.z * d) * e && n.z * (k * e) == (n.z * k) * e) by (nonlinear_arith);
}

/// Two proportions with one denominator add up.
pub proof fn lemma_times_sum(x: V3, y: V3, n: V3, d: int, k1: int, k2: int)
    requires
        x.times(d) == n.times(k1),
        y.times(d) == n.times(k2),
    ensures
        x.plus(y).times(d) == n.times(k1 + k2),
{
    assert(x.times(d).x == n.times(k1).x && y.times(d).x == n.times(k2).x);
    assert(x.times(d).y == n.times(k1).y && y.times(d).y == n.times(k2).y);
    assert(x.times(d).z == n.times(k1).z && y.times(d).z == n.times(k2).z);
    assert((x.x + y.x) * d == x.x * d + y.x * d && n.x * (k1 + k2) == n.x * k1 + n.x * k2)
        by (nonlinear_arith);
    assert((x.y + y.y) * d == x.y * d + y.y * d && n.y * (k1 + k2) == n.y * k1 + n.y * k2)
        by (nonlinear_arith);
    assert((x.z + y.z) * d == x.z * d + y.z * d && n.z * (k1 + k2) == n.z * k1 + n.z * k2)
        by (nonlinear_arith);
}

/// The area of a list of one or two triangles.
pub proof fn lemma_area_sum_short(x: Triangle, y: Triangle)
    ensures
        area_sum(seq![x]) == area_vector(x),
        area_sum(seq![x, y]) == area_vector(x).plus(area_vector(y)),
        area_sum(Seq::<Triangle>::empty()) == (V3 { x: 0, y: 0, z: 0 }),
{
    reveal_with_fuel(area_sum, 3);
    assert(seq![x].drop_last() =~= Seq::<Triangle>::empty());
    assert(seq![x, y].drop_last() =~= seq![x]);
}

/// The area left of the triangle `o`, `p`, `q` when the vertex `o` is cut
/// off: the sum of the two triangles of the quadrilateral.
pub proof fn lemma_quad_area(o: Vec3, p: Vec3, q: Vec3, d_o: int, dp: int, dq: int)
    requires
        d_o < 0,
        dp >= 0,
        dq >= 0,
        crossing_exact(p, o, dp, d_o),
        crossing_exact(q, o, dq, d_o),
    ensures
        area3(crossing(p, o, dp, d_o)@, p@, q@).plus(
            area3(crossing(p, o, dp, d_o)@, q@, crossing(q, o, dq, d_o)@),
        ).times((dp - d_o) * (dq - d_o)) == area3(o@, p@, q@).times(
            (dp - d_o) * (dq - d_o) - d_o * d_o,
        ),
        (dp - d_o) * (dq - d_o) > 0,
        0 <= (dp - d_o) * (dq - d_o) - d_o * d_o <= (dp - d_o) * (dq - d_o),
{
    lemma_quad_kept(o, p, q, d_o, dp, dq);
    let first = area3(crossing(p, o, dp, d_o)@, p@, q@);
    let second = area3(crossing(p, o, dp, d_o)@, q@, crossing(q, o, dq, d_o)@);
    let whole = area3(o@, p@, q@);
    lemma_times_scale(first, whole, dp - d_o, dp, dq - d_o);
    lemma_times_sum(
        first,
        second,
        whole,
        (dp - d_o) * (dq - d_o),
        dp * (dq - d_o),
        (-d_o) * dq,
    );
    assert(dp * (dq - d_o) + (-d_o) * dq == (dp - d_o) * (dq - d_o) - d_o * d_o)
        by (nonlinear_arith);
    assert(0 <= dp * (dq - d_o) + (-d_o) * dq) by (nonlinear_arith)
        requires
            d_o < 0,
            dp >= 0,
            dq >= 0,
    ;
    assert(d_o * d_o >= 0) by (nonlinear_arith);
}

/// No area is the zeroth part of any area.
pub proof fn lemma_nothing_kept(n: V3)
    ensures
        (V3 { x: 0, y: 0, z: 0 }).times(1) == n.times(0),
{
    assert(n.x * 0 == 0 && n.y * 0 == 0 && n.z * 0 == 0 && 0int * 1 == 0) by (nonlinear_arith);
}

/// Area is conserved. In a clip that rounds nothing, the areas of the
/// triangles that are left add up to the area of the part of the clipped
/// triangle that lies in the half-space: its area vector, scaled by the
/// share that the half-space keeps.
pub proof fn lemma_clip_conserves_area(point: V3, normal: V3, t: Triangle)
    requires
        clip_exact(point, normal, t),
    ensures
        ({
            let share = kept_share(
                side(point, normal, t.0@),
                side(point, normal, t.1@),
                side(point, normal, t.2@),
            );
            &&& share.1 > 0
            &&& 0 <= share.0 <= share.1
            &&& area_sum(clipped(point, normal, t)).times(share.1) == area_vector(t).times(share.0)
        }),
{
    let (a, b, c) = t;
    let da = side(point, normal, a@);
    let db = side(point, normal, b@);
    let dc = side(point, normal, c@);
    let out = clipped(point, normal, t);
    let orig = area_vector(t);
    assert(orig == area3(a@, b@, c@));
    lemma_area_cyclic(a@, b@, c@);
    if out.len() == 1 {
        lemma_area_sum_short(out[0], out[0]);
        assert(out =~= seq![out[0]]);
    } else if out.len() == 2 {
        lemma_area_sum_short(out[0], out[1]);
        assert(out =~= seq![out[0], out[1]]);
    } else {
        lemma_area_sum_short(t, t);
    }
    if da >= 0 && db >= 0 && dc >= 0 {
        assert(orig.times(1) == orig.times(1));
    } else if da < 0 && db < 0 && dc < 0 {
        assert(out =~= Seq::<Triangle>::empty());
        lemma_nothing_kept(orig);
    } else if da >= 0 && db < 0 && dc < 0 {
        lemma_corner_kept(a, b, c, da, db, dc);
    } else if db >= 0 && da < 0 && dc < 0 {
        lemma_corner_kept(b, c, a, db, dc, da);
        lemma_area_cyclic(crossing(b, a, db, da)@, b@, crossing(b, c, db, dc)@);
        assert((db - dc) * (db - da) == (db - da) * (db - dc)) by (nonlinear_arith);
    } else if dc >= 0 && da < 0 && db < 0 {
        lemma_corner_kept(c, a, b, dc, da, db);
        lemma_area_cyclic(crossing(c, a, dc, da)@, crossing(c, b, dc, db)@, c@);
    } else if da < 0 {
        lemma_quad_area(a, b, c, da, db, dc);
    } else if db < 0 {
        lemma_quad_area(b, c, a, db, dc, da);
        let ab = crossing(a, b, da, db)@;
        let cb = crossing(c, b, dc, db)@;
        lemma_area_cyclic(a@, ab, cb);
        lemma_area_cyclic(a@, cb, c@);
        assert((dc - db) * (da - db) == (da - db) * (dc - db)) by (nonlinear_arith);
        let first = area3(cb, c@, a@);
        let second = area3(cb, a@, ab);
        assert(second.plus(first) == first.plus(second));
    } else {
        lemma_quad_area(c, a, b, dc, da, db);
        let ac = crossing(a, c, da, dc)@;
        let bc = crossing(b, c, db, dc)@;
        lemma_area_cyclic(a@, b@, ac);
        lemma_area_cyclic(b@, bc, ac);
    }
}

} // verus!
