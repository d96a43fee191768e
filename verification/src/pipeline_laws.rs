//! What the stages of the pipeline guarantee: nothing outside the viewport is
//! drawn, what is inside is drawn as it is, nothing in front of the near
//! plane reaches the divide, and the backface test discards one orientation.

use vstd::prelude::*;
use crate::clip::{clipped, count_inside, inside, lemma_clip_by_count};
use crate::clip_laws::{
    all_in_box, all_past, along, lemma_axis_side, lemma_clipped_in_box, lemma_clipped_past,
    triangle_in_box, triangle_past,
};
use crate::graphics::{
    commands, drawn, near_clipped, pixel, placed, placed_all, rendered, soup_triangle,
    triangle_output, Point, ProjectionData, RenderError, RenderPass, ScreenTriangle,
};
use crate::list::{triangle_wf, Triangle};
use crate::matrix::{identity, projection, stored4, transformed, Mat4};
use crate::pipeline::{
    all_wf, clipped_all, culled, edge_clipped, edge_plane, facing, moved, moved_triangle,
    on_screen, point4, projected, screen_clipped,
};
use crate::scalar::{Scalar, LIMIT, ONE};
use crate::vector::{lemma_unit_bound, Vec3, V3};

verus! {

/// Whether a point in pixel units lies on the surface.
pub open spec fn in_viewport(v: Vec3, width: u16, height: u16) -> bool {
    &&& 0 <= v.x <= (width - 1) * ONE
    &&& 0 <= v.y <= (height - 1) * ONE
}

/// Whether the three vertices of a triangle lie on the surface.
pub open spec fn triangle_in_viewport(t: Triangle, width: u16, height: u16) -> bool {
    &&& in_viewport(t.0, width, height)
    &&& in_viewport(t.1, width, height)
    &&& in_viewport(t.2, width, height)
}

/// The box of all stored vectors.
pub open spec fn range_box() -> (V3, V3) {
    (
        V3 { x: -LIMIT as int, y: -LIMIT as int, z: -LIMIT as int },
        V3 { x: LIMIT as int, y: LIMIT as int, z: LIMIT as int },
    )
}

/// The box that the first `k` edges of the viewport cut out of all stored
/// vectors.
pub open spec fn edge_box(k: int, width: u16, height: u16) -> (V3, V3) {
    (
        V3 {
            x: if k >= 3 { 0 } else { -LIMIT as int },
            y: if k >= 1 { 0 } else { -LIMIT as int },
            z: -LIMIT as int,
        },
        V3 {
            x: if k >= 4 { (width - 1) * ONE } else { LIMIT as int },
            y: if k >= 2 { (height - 1) * ONE } else { LIMIT as int },
            z: LIMIT as int,
        },
    )
}

/// The axis that edge number `k` of the viewport runs across.
pub open spec fn edge_axis(k: int) -> int {
    if k == 0 || k == 1 {
        1
    } else {
        0
    }
}

/// The side of edge number `k` that the viewport is on.
pub open spec fn edge_sign(k: int) -> int {
    if k == 0 || k == 2 {
        1
    } else {
        -1
    }
}

/// Where edge number `k` lies along its axis.
pub open spec fn edge_offset(k: int, width: u16, height: u16) -> int {
    if k == 1 {
        (height - 1) * ONE
    } else if k == 3 {
        (width - 1) * ONE
    } else {
        0
    }
}

/// Storing a vector is the same as lying in the box of all stored vectors.
pub proof fn lemma_wf_is_box(ts: Seq<Triangle>)
    ensures
        all_wf(ts) <==> all_in_box(ts, range_box().0, range_box().1),
{
    if all_wf(ts) {
        assert forall|i: int| 0 <= i < ts.len() implies triangle_in_box(
            #[trigger] ts[i],
            range_box().0,
            range_box().1,
        ) by {
            assert(triangle_wf(ts[i]));
        }
    }
    if all_in_box(ts, range_box().0, range_box().1) {
        assert forall|i: int| 0 <= i < ts.len() implies triangle_wf(#[trigger] ts[i]) by {
            assert(triangle_in_box(ts[i], range_box().0, range_box().1));
        }
    }
}

/// Clipping a list never leaves a box that holds every triangle of it.
pub proof fn lemma_clipped_all_in_box(point: V3, normal: V3, ts: Seq<Triangle>, lo: V3, hi: V3)
    requires
        all_in_box(ts, lo, hi),
    ensures
        all_in_box(clipped_all(point, normal, ts), lo, hi),
    decreases ts.len(),
{
    if ts.len() > 0 {
        let head = clipped_all(point, normal, ts.drop_last());
        let tail = clipped(point, normal, ts.last());
        lemma_clipped_all_in_box(point, normal, ts.drop_last(), lo, hi);
        assert(triangle_in_box(ts[ts.len() - 1], lo, hi));
        lemma_clipped_in_box(point, normal, ts.last(), lo, hi);
        assert forall|i: int| 0 <= i < (head + tail).len() implies triangle_in_box(
            #[trigger] (head + tail)[i],
            lo,
            hi,
        ) by {
            if i < head.len() {
                assert(triangle_in_box(head[i], lo, hi));
            } else {
                assert(triangle_in_box(tail[i - head.len()], lo, hi));
            }
        }
    }
}

/// Clipping a list against a plane across an axis leaves every vertex on the
/// kept side of it.
pub proof fn lemma_clipped_all_past(ts: Seq<Triangle>, axis: int, sign: int, offset: int)
    requires
        sign == 1 || sign == -1,
        all_wf(ts),
    ensures
        all_past(
            clipped_all(along(axis, offset), along(axis, sign * ONE), ts),
            axis,
            sign,
            offset,
        ),
    decreases ts.len(),
{
    if ts.len() > 0 {
        let point = along(axis, offset);
        let normal = along(axis, sign * ONE);
        let head = clipped_all(point, normal, ts.drop_last());
        let tail = clipped(point, normal, ts.last());
        assert(all_wf(ts.drop_last())) by {
            assert forall|i: int| 0 <= i < ts.drop_last().len() implies triangle_wf(
                #[trigger] ts.drop_last()[i],
            ) by {
                assert(triangle_wf(ts[i]));
            }
        }
        lemma_clipped_all_past(ts.drop_last(), axis, sign, offset);
        assert(triangle_wf(ts[ts.len() - 1]));
        lemma_clipped_past(ts.last(), axis, sign, offset);
        assert forall|i: int| 0 <= i < (head + tail).len() implies triangle_past(
            #[trigger] (head + tail)[i],
            axis,
            sign,
            offset,
        ) by {
            if i < head.len() {
                assert(triangle_past(head[i], axis, sign, offset));
            } else {
                assert(triangle_past(tail[i - head.len()], axis, sign, offset));
            }
        }
    }
}

/// Each edge of the viewport is a plane across an axis.
pub proof fn lemma_edge_is_axis_plane(k: int, width: u16, height: u16)
    requires
        0 <= k < 4,
    ensures
        edge_plane(k, width, height).0@ == along(edge_axis(k), edge_offset(k, width, height)),
        edge_plane(k, width, height).1@ == along(edge_axis(k), edge_sign(k) * ONE),
{
}

/// What the first `k` edges of the viewport leave lies in the box they cut
/// out.
pub proof fn lemma_edge_clipped_in_box(t: Triangle, k: int, width: u16, height: u16)
    requires
        triangle_wf(t),
        0 <= k <= 4,
    ensures
        all_in_box(
            edge_clipped(seq![t], k, width, height),
            edge_box(k, width, height).0,
            edge_box(k, width, height).1,
        ),
    decreases k,
{
    if k == 0 {
        assert(all_wf(seq![t]));
        lemma_wf_is_box(seq![t]);
    } else {
        let before = edge_clipped(seq![t], k - 1, width, height);
        let plane = edge_plane(k - 1, width, height);
        let after = clipped_all(plane.0@, plane.1@, before);
        let old_box = edge_box(k - 1, width, height);
        let new_box = edge_box(k, width, height);
        lemma_edge_clipped_in_box(t, k - 1, width, height);
        lemma_clipped_all_in_box(plane.0@, plane.1@, before, old_box.0, old_box.1);
        lemma_clipped_all_in_box(plane.0@, plane.1@, before, range_box().0, range_box().1);
        assert(all_in_box(before, range_box().0, range_box().1)) by {
            assert forall|i: int| 0 <= i < before.len() implies triangle_in_box(
                #[trigger] before[i],
                range_box().0,
                range_box().1,
            ) by {
                assert(triangle_in_box(before[i], old_box.0, old_box.1));
            }
        }
        lemma_wf_is_box(before);
        lemma_edge_is_axis_plane(k - 1, width, height);
        lemma_clipped_all_past(
            before,
            edge_axis(k - 1),
            edge_sign(k - 1),
            edge_offset(k - 1, width, height),
        );
        assert forall|i: int| 0 <= i < after.len() implies triangle_in_box(
            #[trigger] after[i],
            new_box.0,
            new_box.1,
        ) by {
            assert(triangle_in_box(after[i], old_box.0, old_box.1));
            assert(triangle_past(
                after[i],
                edge_axis(k - 1),
                edge_sign(k - 1),
                edge_offset(k - 1, width, height),
            ));
        }
    }
}

/// Nothing outside the viewport is drawn: every vertex of every triangle
/// that the four edges leave lies on the surface.
pub proof fn lemma_screen_clipped_in_viewport(t: Triangle, width: u16, height: u16)
    requires
        triangle_wf(t),
    ensures
        forall|i: int|
            0 <= i < screen_clipped(t, width, height).len() ==> triangle_in_viewport(
                #[trigger] screen_clipped(t, width, height)[i],
                width,
                height,
            ),
{
    lemma_edge_clipped_in_box(t, 4, width, height);
    let out = screen_clipped(t, width, height);
    let b = edge_box(4, width, height);
    assert forall|i: int| 0 <= i < out.len() implies triangle_in_viewport(
        #[trigger] out[i],
        width,
        height,
    ) by {
        assert(triangle_in_box(out[i], b.0, b.1));
    }
}

/// A list of one triangle with every vertex inside is clipped to itself.
pub proof fn lemma_clipped_all_single_inside(point: V3, normal: V3, t: Triangle)
    requires
        inside(point, normal, t.0@),
        inside(point, normal, t.1@),
        inside(point, normal, t.2@),
    ensures
        clipped_all(point, normal, seq![t]) == seq![t],
{
    reveal_with_fuel(clipped_all, 2);
    lemma_clip_by_count(point, normal, t);
    assert(seq![t].drop_last() =~= Seq::<Triangle>::empty());
    assert(seq![t].last() == t);
    assert(Seq::<Triangle>::empty() + seq![t] =~= seq![t]);
}

/// The first `k` edges leave a triangle on the surface as it is.
pub proof fn lemma_edge_clipped_unchanged(t: Triangle, k: int, width: u16, height: u16)
    requires
        triangle_in_viewport(t, width, height),
        0 <= k <= 4,
    ensures
        edge_clipped(seq![t], k, width, height) == seq![t],
    decreases k,
{
    if k > 0 {
        lemma_edge_clipped_unchanged(t, k - 1, width, height);
        lemma_edge_is_axis_plane(k - 1, width, height);
        let axis = edge_axis(k - 1);
        let sign = edge_sign(k - 1);
        let offset = edge_offset(k - 1, width, height);
        lemma_axis_side(t.0, axis, sign, offset);
        lemma_axis_side(t.1, axis, sign, offset);
        lemma_axis_side(t.2, axis, sign, offset);
        let plane = edge_plane(k - 1, width, height);
        lemma_clipped_all_single_inside(plane.0@, plane.1@, t);
    }
}

/// Clipping to the viewport leaves a triangle that lies on the surface as it
/// is: one triangle, the same vertices in the same order.
pub proof fn lemma_inside_viewport_unchanged(t: Triangle, width: u16, height: u16)
    requires
        triangle_in_viewport(t, width, height),
    ensures
        screen_clipped(t, width, height) == seq![t],
{
    lemma_edge_clipped_unchanged(t, 4, width, height);
}

/// Nothing in front of the near plane reaches the divide: every vertex that
/// the near plane leaves is at least as deep as the plane.
pub proof fn lemma_near_clipped_depth(p: ProjectionData, t: Triangle)
    requires
        triangle_wf(t),
    ensures
        forall|i: int|
            0 <= i < near_clipped(Some(p), t).len() ==> {
                let out = #[trigger] near_clipped(Some(p), t)[i];
                out.0.z >= p.near && out.1.z >= p.near && out.2.z >= p.near
            },
{
    lemma_clipped_past(t, 2, 1, p.near as int);
    let out = near_clipped(Some(p), t);
    assert((Vec3 { x: 0, y: 0, z: p.near })@ == along(2, p.near as int));
    assert((Vec3 { x: 0, y: 0, z: ONE })@ == along(2, 1 * ONE));
    assert forall|i: int| 0 <= i < out.len() implies ({
        let o = #[trigger] out[i];
        o.0.z >= p.near && o.1.z >= p.near && o.2.z >= p.near
    }) by {
        assert(triangle_past(out[i], 2, 1, p.near as int));
    }
}

/// A triangle whose vertices all lie in front of the near plane is discarded
/// by it.
pub proof fn lemma_near_clipped_discards(p: ProjectionData, t: Triangle)
    requires
        t.0.z < p.near,
        t.1.z < p.near,
        t.2.z < p.near,
    ensures
        near_clipped(Some(p), t) == Seq::<Triangle>::empty(),
{
    let point = (Vec3 { x: 0, y: 0, z: p.near })@;
    let normal = (Vec3 { x: 0, y: 0, z: ONE })@;
    assert(point == along(2, p.near as int));
    assert(normal == along(2, 1 * ONE));
    lemma_axis_side(t.0, 2, 1, p.near as int);
    lemma_axis_side(t.1, 2, 1, p.near as int);
    lemma_axis_side(t.2, 2, 1, p.near as int);
    assert(count_inside(point, normal, t) == 0);
    lemma_clip_by_count(point, normal, t);
}

/// The identity matrix leaves every point where it is.
pub proof fn lemma_identity_moves_nothing(v: Vec3)
    requires
        v.wf(),
    ensures
        moved(identity(), v) == Some(v),
{
    assert((v.x * ONE) / (ONE as int) == v.x);
    assert((v.y * ONE) / (ONE as int) == v.y);
    assert((v.z * ONE) / (ONE as int) == v.z);
}

/// After the perspective matrix, `w` is the depth of the point: the divide
/// is by the distance along the line of sight.
pub proof fn lemma_projection_w_is_depth(
    aspect: Scalar,
    tan_half_fov: Scalar,
    near: Scalar,
    far: Scalar,
    v: Vec3,
)
    requires
        projection(aspect, tan_half_fov, near, far) is Some,
    ensures
        transformed(projection(aspect, tan_half_fov, near, far).unwrap(), point4(v)).w == v.z,
{
    assert((v.z * ONE) / (ONE as int) == v.z);
}

/// A point within the field of view lands on the surface: if, after the
/// perspective matrix, `x` and `y` lie between `-w` and `w` for a positive
/// `w`, then after the divide and the mapping to pixels the point lies
/// between zero and the width, and between zero and the height.
pub proof fn lemma_frustum_point_on_surface(m: Mat4, v: Vec3, width: u16, height: u16)
    requires
        stored4(transformed(m, point4(v))) matches Some(c) && c.w > 0 && -c.w <= c.x <= c.w
            && -c.w <= c.y <= c.w,
        projected(m, v) matches Some(n) && on_screen(n, width, height) is Some,
    ensures
        projected(m, v) matches Some(n) && on_screen(n, width, height) matches Some(s) && 0 <= s.x
            <= width * ONE && 0 <= s.y <= height * ONE,
{
    let c = stored4(transformed(m, point4(v))).unwrap();
    let n = projected(m, v).unwrap();
    lemma_unit_bound(c.x as int, c.w as int);
    lemma_unit_bound(c.y as int, c.w as int);
    assert(-ONE <= n.x <= ONE);
    assert(-ONE <= n.y <= ONE);
    lemma_half_scaled(n.x + ONE, width as int);
    lemma_half_scaled(n.y + ONE, height as int);
}

/// Half the product of a number between zero and two with a size lies
/// between zero and the size.
pub proof fn lemma_half_scaled(a: int, size: int)
    requires
        0 <= a <= 2 * ONE,
        0 <= size,
    ensures
        0 <= (a * size) / 2 <= size * ONE,
{
    assert(0 <= a * size <= 2 * (size * ONE)) by (nonlinear_arith)
        requires
            0 <= a <= 2 * ONE,
            0 <= size,
    ;
}

/// Inverting the test flips which orientation is discarded: a triangle that
/// is not seen edge-on is discarded either with the flag or without it, and
/// never both.
pub proof fn lemma_invert_flips_culling(t: Triangle, camera: Vec3)
    ensures
        facing(t, camera) != 0 ==> culled(t, camera, true) == !culled(t, camera, false),
        facing(t, camera) == 0 ==> !culled(t, camera, true) && !culled(t, camera, false),
{
}

/// The backface test keeps a triangle from the rasterizer: one that it
/// discards gives no screen triangle.
pub proof fn lemma_culled_draws_nothing(
    pass: RenderPass,
    view: Mat4,
    proj: Option<Mat4>,
    width: u16,
    height: u16,
    t: Triangle,
)
    requires
        moved_triangle(pass.model, t) matches Some(world) && culled(
            world,
            pass.camera_position,
            pass.invert_culling,
        ),
    ensures
        triangle_output(pass, view, proj, width, height, t) == Ok::<Seq<Triangle>, RenderError>(
            Seq::<Triangle>::empty(),
        ),
{
}

/// Whether a pixel lies on a surface of the given size.
pub open spec fn pixel_on_surface(p: Point, width: u16, height: u16) -> bool {
    0 <= p.x < width && 0 <= p.y < height
}

/// Whether the three corners of a triangle to draw lie on the surface.
pub open spec fn command_on_surface(c: ScreenTriangle, width: u16, height: u16) -> bool {
    &&& pixel_on_surface(c.a, width, height)
    &&& pixel_on_surface(c.b, width, height)
    &&& pixel_on_surface(c.c, width, height)
}

/// Whether every triangle of a list lies on the surface.
pub open spec fn all_in_viewport(ts: Seq<Triangle>, width: u16, height: u16) -> bool {
    forall|i: int| 0 <= i < ts.len() ==> triangle_in_viewport(#[trigger] ts[i], width, height)
}

/// Every triangle that reaches the screen from a list lies on the surface.
pub proof fn lemma_placed_all_in_viewport(
    ts: Seq<Triangle>,
    proj: Option<Mat4>,
    width: u16,
    height: u16,
)
    ensures
        placed_all(ts, proj, width, height) matches Ok(out) ==> all_in_viewport(out, width, height),
    decreases ts.len(),
{
    if ts.len() > 0 {
        lemma_placed_all_in_viewport(ts.drop_last(), proj, width, height);
        if let Ok(before) = placed_all(ts.drop_last(), proj, width, height) {
            if let Some(s) = placed(ts.last(), proj, width, height) {
                lemma_screen_clipped_in_viewport(s, width, height);
                let tail = screen_clipped(s, width, height);
                assert forall|i: int| 0 <= i < (before + tail).len() implies triangle_in_viewport(
                    #[trigger] (before + tail)[i],
                    width,
                    height,
                ) by {
                    if i < before.len() {
                        assert(triangle_in_viewport(before[i], width, height));
                    } else {
                        assert(triangle_in_viewport(tail[i - before.len()], width, height));
                    }
                }
            }
        }
    }
}

/// The pixel under a point on the surface lies on the surface.
pub proof fn lemma_pixel_on_surface(v: Vec3, width: u16, height: u16)
    requires
        in_viewport(v, width, height),
    ensures
        pixel_on_surface(pixel(v), width, height),
{
    lemma_whole_part(v.x as int, width - 1);
    lemma_whole_part(v.y as int, height - 1);
}

/// The whole part of a number between zero and `n` lies between zero and `n`.
pub proof fn lemma_whole_part(a: int, n: int)
    requires
        0 <= a <= n * ONE,
    ensures
        0 <= a / (ONE as int) <= n,
{
}

/// Every triangle that the first `count` triangles of a soup draw lies on
/// the surface.
pub proof fn lemma_drawn_on_surface(
    pass: RenderPass,
    view: Mat4,
    proj: Option<Mat4>,
    width: u16,
    height: u16,
    count: nat,
)
    ensures
        drawn(pass, view, proj, width, height, count) matches Ok(cs) ==> forall|i: int|
            0 <= i < cs.len() ==> command_on_surface(#[trigger] cs[i], width, height),
    decreases count,
{
    if count > 0 {
        lemma_drawn_on_surface(pass, view, proj, width, height, (count - 1) as nat);
        if let Ok(before) = drawn(pass, view, proj, width, height, (count - 1) as nat) {
            let t = soup_triangle(pass.triangles@, count - 1);
            if let Ok(ts) = triangle_output(pass, view, proj, width, height, t) {
                if let Some(world) = moved_triangle(pass.model, t) {
                    if !culled(world, pass.camera_position, pass.invert_culling) {
                        if let Some(seen) = moved_triangle(view, world) {
                            lemma_placed_all_in_viewport(
                                near_clipped(pass.projection, seen),
                                proj,
                                width,
                                height,
                            );
                        }
                    }
                }
                let tail = commands(ts, pass.color, pass.border_color);
                assert forall|i: int| 0 <= i < (before + tail).len() implies command_on_surface(
                    #[trigger] (before + tail)[i],
                    width,
                    height,
                ) by {
                    if i < before.len() {
                        assert(command_on_surface(before[i], width, height));
                    } else {
                        let j = i - before.len();
                        assert(triangle_in_viewport(ts[j], width, height));
                        lemma_pixel_on_surface(ts[j].0, width, height);
                        lemma_pixel_on_surface(ts[j].1, width, height);
                        lemma_pixel_on_surface(ts[j].2, width, height);
                    }
                }
            }
        }
    }
}

/// Nothing off the surface reaches the rasterizer: every corner of every
/// triangle that a pass draws is a pixel of the surface.
pub proof fn lemma_rendered_on_surface(width: u16, height: u16, pass: RenderPass)
    ensures
        rendered(width, height, pass) matches Ok(cs) ==> forall|i: int|
            0 <= i < cs.len() ==> command_on_surface(#[trigger] cs[i], width, height),
{
    if let Ok(cs) = rendered(width, height, pass) {
        if cs.len() > 0 {
            let view = crate::graphics::view_matrix(pass).unwrap();
            let proj = crate::graphics::projection_matrix(pass.projection).unwrap();
            lemma_drawn_on_surface(
                pass,
                view,
                proj,
                width,
                height,
                pass.triangles@.len() / 9,
            );
        }
    }
}

} // verus!
