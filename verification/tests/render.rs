use softraster::graphics::{
    ClearRectangle, Color, Framebuffer, Point, ProjectionData, RenderError, RenderPass,
    ScreenTriangle,
};
use softraster::matrix::{mat4_identity, mat4_translate, Mat4};
use softraster::scalar::{LIMIT, ONE};
use softraster::vector::Vec3;

const RED: Color = Color { index: 3 };
const GRAY: Color = Color { index: 1 };

fn raw(x: f64) -> i64 {
    (x * ONE as f64).round() as i64
}

fn w3(x: i64, y: i64, z: i64) -> Vec3 {
    Vec3 { x: x * ONE, y: y * ONE, z: z * ONE }
}

fn right_angle() -> ProjectionData {
    ProjectionData { tan_half_fov: ONE, near: raw(0.1), far: 50 * ONE }
}

fn pass_over<'a>(soup: &'a [i64], model: Mat4, projection: Option<ProjectionData>) -> RenderPass<'a> {
    RenderPass {
        camera_front: w3(0, 0, 1),
        camera_position: w3(0, 0, 0),
        triangles: soup,
        model,
        color: Some(RED),
        border_color: Some(GRAY),
        invert_culling: false,
        enable_depth: true,
        projection,
    }
}

fn dot(a: [f64; 3], b: [f64; 3]) -> f64 {
    a[0] * b[0] + a[1] * b[1] + a[2] * b[2]
}

fn minus(a: [f64; 3], b: [f64; 3]) -> [f64; 3] {
    [a[0] - b[0], a[1] - b[1], a[2] - b[2]]
}

fn cross(a: [f64; 3], b: [f64; 3]) -> [f64; 3] {
    [a[1] * b[2] - a[2] * b[1], a[2] * b[0] - a[0] * b[2], a[0] * b[1] - a[1] * b[0]]
}

/// A unit cube of eight vertices and twelve triangles, standing on one
/// corner so that three of its faces look down the z axis toward the origin,
/// with every triangle wound so that its normal points into the cube.
fn cube_soup(center: [f64; 3]) -> Vec<i64> {
    let s2 = 2f64.sqrt();
    let s3 = 3f64.sqrt();
    let s6 = 6f64.sqrt();
    let turn = [
        [1.0 / s2, -1.0 / s2, 0.0],
        [1.0 / s6, 1.0 / s6, -2.0 / s6],
        [1.0 / s3, 1.0 / s3, 1.0 / s3],
    ];
    let corner = |bits: usize| -> [f64; 3] {
        let p = [
            if bits & 1 == 0 { -0.5 } else { 0.5 },
            if bits & 2 == 0 { -0.5 } else { 0.5 },
            if bits & 4 == 0 { -0.5 } else { 0.5 },
        ];
        [
            dot(turn[0], p) + center[0],
            dot(turn[1], p) + center[1],
            dot(turn[2], p) + center[2],
        ]
    };
    let mut soup = Vec::new();
    for axis in 0..3 {
        let (u, v) = ((axis + 1) % 3, (axis + 2) % 3);
        for side in 0..2 {
            let at = |a: usize, b: usize| corner((side << axis) | (a << u) | (b << v));
            let quad = [at(0, 0), at(1, 0), at(1, 1), at(0, 1)];
            for mut t in [[quad[0], quad[1], quad[2]], [quad[0], quad[2], quad[3]]] {
                let normal = cross(minus(t[1], t[0]), minus(t[2], t[0]));
                if dot(normal, minus(t[0], center)) > 0.0 {
                    t.swap(1, 2);
                }
                for vertex in t {
                    for coordinate in vertex {
                        soup.push(raw(coordinate));
                    }
                }
            }
        }
    }
    soup
}

#[test]
fn framebuffer_remembers_its_size() {
    let fb = Framebuffer::new(160, 128);
    assert_eq!(fb.width(), 160);
    assert_eq!(fb.height(), 128);
}

#[test]
fn clear_color_covers_the_whole_surface() {
    let fb = Framebuffer::new(160, 128);
    assert_eq!(fb.clear_color(GRAY), ClearRectangle { width: 160, height: 128, color: GRAY });
    let none = Framebuffer::new(0, 0);
    assert_eq!(none.clear_color(RED), ClearRectangle { width: 0, height: 0, color: RED });
}

#[test]
fn clear_depth_changes_nothing() {
    let mut fb = Framebuffer::new(160, 128);
    fb.clear_depth(LIMIT);
    assert_eq!(fb.width(), 160);
    assert_eq!(fb.height(), 128);
    let soup = [0, 0, ONE, ONE / 2, 0, ONE, 0, ONE / 2, ONE];
    let before = Framebuffer::new(160, 128).render_pass(&pass_over(&soup, mat4_identity(), None));
    assert_eq!(fb.render_pass(&pass_over(&soup, mat4_identity(), None)), before);
}

#[test]
fn cube_at_ten_units_shows_six_triangles_on_the_surface() {
    let soup = cube_soup([0.0, 0.0, 10.0]);
    assert_eq!(soup.len(), 12 * 9);
    let fb = Framebuffer::new(160, 128);
    let out = fb.render_pass(&pass_over(&soup, mat4_identity(), Some(right_angle()))).unwrap();
    assert_eq!(out.len(), 6);
    for t in &out {
        for p in [t.a, t.b, t.c] {
            assert!(0 <= p.x && p.x < 160);
            assert!(0 <= p.y && p.y < 128);
            // The cube is a tenth as large as the view is wide at its distance.
            assert!((p.x - 80).abs() <= 8);
            assert!((p.y - 64).abs() <= 8);
        }
        assert_eq!(t.fill, Some(RED));
        assert_eq!(t.stroke, Some(GRAY));
    }
}

#[test]
fn cube_moved_by_the_model_matrix_shows_the_same_triangles() {
    let fb = Framebuffer::new(160, 128);
    let local = cube_soup([0.0, 0.0, 0.0]);
    let model = mat4_translate(mat4_identity(), w3(0, 0, 10)).unwrap();
    let moved = fb.render_pass(&pass_over(&local, model, Some(right_angle()))).unwrap();
    assert_eq!(moved.len(), 6);
    let mut seen_from_afar = pass_over(&local, mat4_identity(), Some(right_angle()));
    seen_from_afar.camera_position = w3(0, 0, -10);
    assert_eq!(fb.render_pass(&seen_from_afar), Ok(moved));
}

#[test]
fn cube_inside_the_near_plane_is_not_drawn() {
    let soup = cube_soup([0.0, 0.0, 0.05]);
    let fb = Framebuffer::new(160, 128);
    let out = fb.render_pass(&pass_over(&soup, mat4_identity(), Some(right_angle())));
    assert_eq!(out, Ok(vec![]));
}

#[test]
fn triangle_in_front_of_the_near_plane_is_clipped_away() {
    // Wound to face the camera, and nearer than the near plane.
    let soup = [
        0, 0, raw(0.05),
        raw(0.01), 0, raw(0.05),
        0, raw(0.01), raw(0.05),
    ];
    let fb = Framebuffer::new(160, 128);
    let none = fb.render_pass(&pass_over(&soup, mat4_identity(), Some(right_angle())));
    assert_eq!(none, Ok(vec![]));
    // Without a projection nothing clips it.
    let some = fb.render_pass(&pass_over(&soup, mat4_identity(), None)).unwrap();
    assert_eq!(some.len(), 1);
}

#[test]
fn pass_without_projection_uses_view_coordinates() {
    let soup = [0, 0, ONE, ONE / 2, 0, ONE, 0, ONE / 2, ONE];
    let fb = Framebuffer::new(160, 128);
    let out = fb.render_pass(&pass_over(&soup, mat4_identity(), None));
    assert_eq!(
        out,
        Ok(vec![ScreenTriangle {
            a: Point { x: 80, y: 64 },
            b: Point { x: 120, y: 64 },
            c: Point { x: 80, y: 96 },
            fill: Some(RED),
            stroke: Some(GRAY),
        }])
    );
}

#[test]
fn pass_with_projection_divides_by_depth() {
    let soup = [0, 0, 2 * ONE, ONE, 0, 2 * ONE, 0, ONE, 2 * ONE];
    let fb = Framebuffer::new(160, 128);
    let out = fb.render_pass(&pass_over(&soup, mat4_identity(), Some(right_angle())));
    assert_eq!(
        out,
        Ok(vec![ScreenTriangle {
            a: Point { x: 80, y: 64 },
            b: Point { x: 120, y: 64 },
            c: Point { x: 80, y: 96 },
            fill: Some(RED),
            stroke: Some(GRAY),
        }])
    );
}

#[test]
fn backfacing_triangle_is_never_drawn() {
    let facing = [0, 0, ONE, ONE / 2, 0, ONE, 0, ONE / 2, ONE];
    let away = [0, 0, ONE, 0, ONE / 2, ONE, ONE / 2, 0, ONE];
    let fb = Framebuffer::new(160, 128);
    assert_eq!(fb.render_pass(&pass_over(&away, mat4_identity(), None)), Ok(vec![]));
    let mut inverted = pass_over(&facing, mat4_identity(), None);
    inverted.invert_culling = true;
    assert_eq!(fb.render_pass(&inverted), Ok(vec![]));
    let mut inverted = pass_over(&away, mat4_identity(), None);
    inverted.invert_culling = true;
    assert_eq!(fb.render_pass(&inverted).unwrap().len(), 1);
}

#[test]
fn triangles_are_drawn_in_the_order_of_the_soup() {
    let soup = [
        0, 0, ONE, ONE / 2, 0, ONE, 0, ONE / 2, ONE,
        0, 0, ONE, 0, ONE / 2, ONE, ONE / 2, 0, ONE,
        0, 0, ONE, -ONE / 2, 0, ONE, 0, -ONE / 2, ONE,
    ];
    let fb = Framebuffer::new(160, 128);
    let out = fb.render_pass(&pass_over(&soup, mat4_identity(), None)).unwrap();
    assert_eq!(out.len(), 2);
    assert_eq!((out[0].b, out[0].c), (Point { x: 120, y: 64 }, Point { x: 80, y: 96 }));
    assert_eq!((out[1].b, out[1].c), (Point { x: 40, y: 64 }, Point { x: 80, y: 32 }));
}

#[test]
fn empty_soup_draws_nothing() {
    let fb = Framebuffer::new(160, 128);
    assert_eq!(fb.render_pass(&pass_over(&[], mat4_identity(), Some(right_angle()))), Ok(vec![]));
}

#[test]
fn depth_flag_has_no_effect() {
    let soup = cube_soup([0.3, -0.2, 4.0]);
    let fb = Framebuffer::new(160, 128);
    let mut pass = pass_over(&soup, mat4_identity(), Some(right_angle()));
    let with = fb.render_pass(&pass);
    pass.enable_depth = false;
    assert_eq!(fb.render_pass(&pass), with);
    assert!(with.is_ok());
}

#[test]
fn colors_are_passed_through_and_both_absent_draws_nothing() {
    let soup = [0, 0, ONE, ONE / 2, 0, ONE, 0, ONE / 2, ONE];
    let fb = Framebuffer::new(160, 128);
    let mut pass = pass_over(&soup, mat4_identity(), None);
    pass.color = None;
    let outline = fb.render_pass(&pass).unwrap();
    assert_eq!((outline[0].fill, outline[0].stroke), (None, Some(GRAY)));
    pass.color = Some(RED);
    pass.border_color = None;
    let filled = fb.render_pass(&pass).unwrap();
    assert_eq!((filled[0].fill, filled[0].stroke), (Some(RED), None));
    pass.color = None;
    assert_eq!(fb.render_pass(&pass), Ok(vec![]));
}

#[test]
fn soup_that_is_not_whole_triangles_is_refused() {
    let fb = Framebuffer::new(160, 128);
    for len in [1, 8, 10, 17] {
        let soup = vec![0; len];
        assert_eq!(
            fb.render_pass(&pass_over(&soup, mat4_identity(), None)),
            Err(RenderError::MalformedMesh)
        );
    }
    // The length is checked before anything else.
    let mut pass = pass_over(&[LIMIT + 1], mat4_identity(), None);
    pass.color = None;
    pass.border_color = None;
    assert_eq!(fb.render_pass(&pass), Err(RenderError::MalformedMesh));
}

#[test]
fn numbers_out_of_range_are_refused() {
    let fb = Framebuffer::new(160, 128);
    let soup = [0, 0, ONE, ONE / 2, 0, ONE, 0, ONE / 2, LIMIT + 1];
    assert_eq!(
        fb.render_pass(&pass_over(&soup, mat4_identity(), None)),
        Err(RenderError::OutOfRange)
    );
    let good = [0, 0, ONE, ONE / 2, 0, ONE, 0, ONE / 2, ONE];
    let mut pass = pass_over(&good, mat4_identity(), None);
    pass.camera_front = Vec3 { x: 0, y: 0, z: LIMIT + 1 };
    assert_eq!(fb.render_pass(&pass), Err(RenderError::OutOfRange));
    let mut pass = pass_over(&good, mat4_identity(), None);
    pass.camera_position = Vec3 { x: 0, y: 0, z: LIMIT };
    assert_eq!(fb.render_pass(&pass), Err(RenderError::OutOfRange));
    let mut pass = pass_over(&good, mat4_identity(), Some(right_angle()));
    pass.projection = Some(ProjectionData { tan_half_fov: ONE, near: -LIMIT - 1, far: ONE });
    assert_eq!(fb.render_pass(&pass), Err(RenderError::OutOfRange));
    let mut model = mat4_identity();
    model.r0.w = LIMIT + 1;
    assert_eq!(fb.render_pass(&pass_over(&good, model, None)), Err(RenderError::OutOfRange));
}

#[test]
fn coordinates_that_leave_the_range_are_refused() {
    let fb = Framebuffer::new(160, 128);
    let edge = [LIMIT, 0, ONE, LIMIT, ONE, ONE, LIMIT, 0, 2 * ONE];
    let model = mat4_translate(mat4_identity(), w3(1, 0, 0)).unwrap();
    assert_eq!(fb.render_pass(&pass_over(&edge, model, None)), Err(RenderError::OutOfRange));
    // The mapping to pixels scales by half the width.
    let wide = [0, 0, ONE, LIMIT / 8, 0, ONE, 0, LIMIT / 8, ONE];
    assert_eq!(
        fb.render_pass(&pass_over(&wide, mat4_identity(), None)),
        Err(RenderError::OutOfRange)
    );
    // A triangle that the backface test discards is not taken that far.
    let culled = [0, 0, ONE, 0, LIMIT / 8, ONE, LIMIT / 8, 0, ONE];
    assert_eq!(fb.render_pass(&pass_over(&culled, mat4_identity(), None)), Ok(vec![]));
}

#[test]
fn degenerate_projection_is_refused() {
    let fb = Framebuffer::new(160, 128);
    let soup = [0, 0, ONE, ONE / 2, 0, ONE, 0, ONE / 2, ONE];
    let flat = ProjectionData { tan_half_fov: 0, near: raw(0.1), far: 50 * ONE };
    assert_eq!(
        fb.render_pass(&pass_over(&soup, mat4_identity(), Some(flat))),
        Err(RenderError::InvalidProjection)
    );
    let thin = ProjectionData { tan_half_fov: ONE, near: ONE, far: ONE };
    assert_eq!(
        fb.render_pass(&pass_over(&soup, mat4_identity(), Some(thin))),
        Err(RenderError::InvalidProjection)
    );
    assert_eq!(
        fb.render_pass(&pass_over(&[], mat4_identity(), Some(thin))),
        Err(RenderError::InvalidProjection)
    );
}

#[test]
fn camera_without_a_direction_sees_world_coordinates() {
    let soup = [0, 0, ONE, ONE / 2, 0, ONE, 0, ONE / 2, ONE];
    let fb = Framebuffer::new(160, 128);
    let mut pass = pass_over(&soup, mat4_identity(), None);
    pass.camera_front = w3(0, 0, 0);
    let lost = fb.render_pass(&pass);
    pass.camera_front = w3(0, 1, 0);
    let upward = fb.render_pass(&pass);
    pass.camera_front = w3(0, 0, 1);
    let ahead = fb.render_pass(&pass);
    assert_eq!(lost, ahead);
    assert_eq!(upward, ahead);
}

#[test]
fn triangle_across_the_near_plane_is_drawn_on_the_surface() {
    let soup = [
        0, 0, 2 * ONE,
        4 * ONE, 0, -ONE,
        0, 4 * ONE, -ONE,
    ];
    let fb = Framebuffer::new(160, 128);
    let out = fb.render_pass(&pass_over(&soup, mat4_identity(), Some(right_angle()))).unwrap();
    assert!(!out.is_empty());
    for t in &out {
        for p in [t.a, t.b, t.c] {
            assert!(0 <= p.x && p.x < 160);
            assert!(0 <= p.y && p.y < 128);
        }
    }
    assert_eq!(out[0].a, Point { x: 80, y: 64 });
}

#[test]
fn wall_close_to_the_camera_is_clipped_to_the_surface() {
    // A large wall two units ahead, seen from up close.
    let soup = [
        -85 * ONE, -6 * ONE, 2 * ONE,
        85 * ONE, -6 * ONE, 2 * ONE,
        -85 * ONE, 6 * ONE, 2 * ONE,
    ];
    let fb = Framebuffer::new(160, 128);
    let out = fb.render_pass(&pass_over(&soup, mat4_identity(), Some(right_angle()))).unwrap();
    assert!(!out.is_empty());
    let mut left = i32::MAX;
    let mut right = i32::MIN;
    for t in &out {
        for p in [t.a, t.b, t.c] {
            assert!(0 <= p.x && p.x < 160);
            assert!(0 <= p.y && p.y < 128);
            left = left.min(p.x);
            right = right.max(p.x);
        }
    }
    assert_eq!((left, right), (0, 159));
}

#[test]
fn pixels_are_rounded_toward_zero() {
    let soup = [
        raw(-0.99), raw(-0.99), ONE,
        raw(0.013), raw(-0.99), ONE,
        raw(-0.99), raw(0.013), ONE,
    ];
    let fb = Framebuffer::new(160, 128);
    let out = fb.render_pass(&pass_over(&soup, mat4_identity(), None)).unwrap();
    assert_eq!(out.len(), 1);
    assert_eq!(out[0].a, Point { x: 0, y: 0 });
    assert_eq!(out[0].b, Point { x: 81, y: 0 });
    assert_eq!(out[0].c, Point { x: 0, y: 64 });
}
