use softraster::graphics::{clip_near, place, ProjectionData};
use softraster::list::{Triangle, TriangleList};
use softraster::matrix::{mat4_get_projection, mat4_identity, mat4_translate};
use softraster::pipeline::{
    clip_list, clip_to_screen, is_culled, point_to_screen, project_point, project_triangle,
    transform_point, transform_triangle, triangle_to_screen, viewport_edge,
};
use softraster::scalar::{LIMIT, ONE};
use softraster::vector::Vec3;

fn p3(x: i64, y: i64, z: i64) -> Vec3 {
    Vec3 { x: x * ONE, y: y * ONE, z: z * ONE }
}

fn halves(x: i64, y: i64, z: i64) -> Vec3 {
    Vec3 { x: x * ONE / 2, y: y * ONE / 2, z: z * ONE / 2 }
}

fn gather(list: &TriangleList) -> Vec<Triangle> {
    let mut out = Vec::new();
    let mut i = 0;
    while let Some(t) = list.get(i) {
        out.push(t);
        i += 1;
    }
    out
}

fn signed_area(t: &Triangle) -> i128 {
    let (a, b, c) = *t;
    ((b.x - a.x) as i128) * ((c.y - a.y) as i128) - ((b.y - a.y) as i128) * ((c.x - a.x) as i128)
}

#[test]
fn transform_point_applies_the_matrix_to_a_point() {
    let shift = mat4_translate(mat4_identity(), p3(1, 2, 3)).unwrap();
    assert_eq!(transform_point(shift, p3(10, 10, 10)), Some(p3(11, 12, 13)));
    assert_eq!(
        transform_triangle(shift, (p3(0, 0, 0), p3(1, 0, 0), p3(0, 1, 0))),
        Some((p3(1, 2, 3), p3(2, 2, 3), p3(1, 3, 3)))
    );
}

#[test]
fn transform_point_reports_leaving_the_range() {
    let shift = mat4_translate(mat4_identity(), p3(1, 0, 0)).unwrap();
    assert_eq!(transform_point(shift, Vec3 { x: LIMIT, y: 0, z: 0 }), None);
    assert_eq!(
        transform_triangle(shift, (p3(0, 0, 0), Vec3 { x: LIMIT, y: 0, z: 0 }, p3(0, 1, 0))),
        None
    );
}

#[test]
fn backface_culling_discards_negative_facing() {
    let camera = p3(0, 0, 0);
    // The normal of this triangle is (0, 0, 1); it lies five units down the z axis.
    let with = (p3(0, 0, 5), p3(1, 0, 5), p3(0, 1, 5));
    let against = (p3(0, 0, 5), p3(0, 1, 5), p3(1, 0, 5));
    assert!(!is_culled(with, camera, false));
    assert!(is_culled(against, camera, false));
}

#[test]
fn inverting_culling_flips_the_discarded_orientation() {
    let camera = p3(0, 0, 0);
    let with = (p3(0, 0, 5), p3(1, 0, 5), p3(0, 1, 5));
    let against = (p3(0, 0, 5), p3(0, 1, 5), p3(1, 0, 5));
    assert!(is_culled(with, camera, true));
    assert!(!is_culled(against, camera, true));
}

#[test]
fn culling_keeps_a_triangle_seen_edge_on_or_without_area() {
    let camera = p3(0, 0, 6);
    let edge_on = (p3(0, 0, 6), p3(1, 0, 6), p3(0, 1, 6));
    assert!(!is_culled(edge_on, camera, false));
    assert!(!is_culled(edge_on, camera, true));
    let flat = (p3(1, 1, 1), p3(2, 2, 2), p3(3, 3, 3));
    assert!(!is_culled(flat, p3(0, 5, 0), false));
    assert!(!is_culled(flat, p3(0, 5, 0), true));
}

#[test]
fn culling_depends_on_where_the_camera_stands() {
    let t = (p3(0, 0, 5), p3(1, 0, 5), p3(0, 1, 5));
    assert!(!is_culled(t, p3(0, 0, 0), false));
    assert!(is_culled(t, p3(0, 0, 10), false));
}

#[test]
fn culling_is_exact_at_the_limits_of_the_range() {
    let far = LIMIT;
    let t = (
        Vec3 { x: -far, y: -far, z: far },
        Vec3 { x: far, y: -far, z: far },
        Vec3 { x: -far, y: far, z: far },
    );
    let camera = Vec3 { x: 0, y: 0, z: -far };
    assert!(!is_culled(t, camera, false));
    assert!(is_culled(t, camera, true));
    assert!(is_culled((t.0, t.2, t.1), camera, false));
}

#[test]
fn projection_divides_by_depth() {
    let m = mat4_get_projection(ONE, ONE, ONE, 3 * ONE).unwrap();
    assert_eq!(project_point(m, p3(1, -1, 2)), Some(halves(1, -1, 1)));
    assert_eq!(project_point(m, p3(0, 0, 1)), Some(p3(0, 0, -1)));
    assert_eq!(project_point(m, p3(3, 3, 3)), Some(p3(1, 1, 1)));
    assert_eq!(
        project_triangle(m, (p3(1, -1, 2), p3(0, 0, 1), p3(3, 3, 3))),
        Some((halves(1, -1, 1), p3(0, 0, -1), p3(1, 1, 1)))
    );
}

#[test]
fn projection_fails_at_zero_depth() {
    let m = mat4_get_projection(ONE, ONE, ONE, 3 * ONE).unwrap();
    assert_eq!(project_point(m, p3(1, 1, 0)), None);
    assert_eq!(project_triangle(m, (p3(1, -1, 2), p3(1, 1, 0), p3(3, 3, 3))), None);
}

#[test]
fn screen_mapping_scales_by_half_the_size() {
    assert_eq!(point_to_screen(p3(0, 0, 0), 160, 128), Some(p3(80, 64, 0)));
    assert_eq!(point_to_screen(p3(-1, -1, -1), 160, 128), Some(p3(0, 0, -1)));
    assert_eq!(point_to_screen(p3(1, 1, 1), 160, 128), Some(p3(160, 128, 1)));
    assert_eq!(point_to_screen(halves(1, -1, 0), 160, 128), Some(p3(120, 32, 0)));
    assert_eq!(
        triangle_to_screen((p3(0, 0, 0), p3(-1, -1, -1), p3(1, 1, 1)), 160, 128),
        Some((p3(80, 64, 0), p3(0, 0, -1), p3(160, 128, 1)))
    );
}

#[test]
fn screen_mapping_rounds_down() {
    assert_eq!(
        point_to_screen(Vec3 { x: 0, y: 1, z: 0 }, 3, 3),
        Some(Vec3 { x: 98304, y: 98305, z: 0 })
    );
    assert_eq!(
        point_to_screen(Vec3 { x: -ONE - 1, y: 0, z: 0 }, 3, 3),
        Some(Vec3 { x: -2, y: 98304, z: 0 })
    );
}

#[test]
fn screen_mapping_reports_leaving_the_range() {
    assert_eq!(point_to_screen(Vec3 { x: LIMIT, y: 0, z: 0 }, 160, 128), None);
    assert_eq!(point_to_screen(Vec3 { x: 0, y: LIMIT / 2, z: 0 }, 160, 128), None);
    // Depth is not scaled, so it cannot leave the range.
    assert_eq!(
        point_to_screen(Vec3 { x: 0, y: 0, z: LIMIT }, 160, 128),
        Some(Vec3 { x: 80 * ONE, y: 64 * ONE, z: LIMIT })
    );
}

#[test]
fn perspective_round_trip_lands_on_the_surface() {
    let near = ONE / 10;
    let m = mat4_get_projection(ONE, ONE, near, 50 * ONE).unwrap();
    // At the depth of the near plane the field of view is as wide as the plane is far.
    let offsets = [-near, -near / 2, 0, near / 3, near];
    for x in offsets {
        for y in offsets {
            let ndc = project_point(m, Vec3 { x, y, z: near }).unwrap();
            let s = point_to_screen(ndc, 160, 128).unwrap();
            assert!(0 <= s.x && s.x <= 160 * ONE);
            assert!(0 <= s.y && s.y <= 128 * ONE);
        }
    }
    let center = project_point(m, Vec3 { x: 0, y: 0, z: near }).unwrap();
    assert_eq!((center.x, center.y), (0, 0));
    // Depth at the near plane is minus one, up to the rounding of the matrix
    // entries, which the divide by a tenth magnifies tenfold.
    assert!((center.z + ONE).abs() <= 16);
    let s = point_to_screen(center, 160, 128).unwrap();
    assert_eq!((s.x, s.y), (80 * ONE, 64 * ONE));
}

#[test]
fn near_plane_discards_what_is_in_front_of_it() {
    let p = ProjectionData { tan_half_fov: ONE, near: ONE / 10, far: 50 * ONE };
    let behind = (
        Vec3 { x: 0, y: 0, z: ONE / 20 },
        Vec3 { x: ONE, y: 0, z: ONE / 20 },
        Vec3 { x: 0, y: ONE, z: 0 },
    );
    assert_eq!(clip_near(Some(p), behind).len(), 0);
    // Without a projection there is no near plane.
    assert_eq!(gather(&clip_near(None, behind)), vec![behind]);
}

#[test]
fn near_plane_cuts_at_its_depth() {
    let p = ProjectionData { tan_half_fov: ONE, near: ONE, far: 50 * ONE };
    let t = (p3(0, 0, 3), p3(4, 0, -1), p3(0, 4, -1));
    let out = gather(&clip_near(Some(p), t));
    assert_eq!(out, vec![(p3(0, 0, 3), p3(2, 0, 1), p3(0, 2, 1))]);
    let inside = (p3(0, 0, 1), p3(4, 0, 2), p3(0, 4, 3));
    assert_eq!(gather(&clip_near(Some(p), inside)), vec![inside]);
}

#[test]
fn place_projects_then_maps_to_pixels() {
    let m = mat4_get_projection(ONE, ONE, ONE, 3 * ONE).unwrap();
    let t = (p3(0, 0, 1), p3(1, 0, 2), p3(0, 2, 2));
    assert_eq!(
        place(t, Some(m), 160, 128),
        Some((
            p3(80, 64, -1),
            Vec3 { x: 120 * ONE, y: 64 * ONE, z: ONE / 2 },
            Vec3 { x: 80 * ONE, y: 128 * ONE, z: ONE / 2 },
        ))
    );
    // Without a projection the view coordinates are used as they are.
    assert_eq!(
        place(t, None, 160, 128),
        Some((p3(80, 64, 1), p3(160, 64, 2), p3(80, 192, 2)))
    );
    assert_eq!(place((p3(0, 0, 0), p3(1, 0, 2), p3(0, 2, 2)), Some(m), 160, 128), None);
}

#[test]
fn viewport_edges_point_inward() {
    assert_eq!(viewport_edge(0, 160, 128), (p3(0, 0, 0), p3(0, 1, 0)));
    assert_eq!(viewport_edge(1, 160, 128), (p3(0, 127, 0), p3(0, -1, 0)));
    assert_eq!(viewport_edge(2, 160, 128), (p3(0, 0, 0), p3(1, 0, 0)));
    assert_eq!(viewport_edge(3, 160, 128), (p3(159, 0, 0), p3(-1, 0, 0)));
    assert_eq!(viewport_edge(1, 0, 0), (p3(0, -1, 0), p3(0, -1, 0)));
    assert_eq!(viewport_edge(3, 65535, 65535), (p3(65534, 0, 0), p3(-1, 0, 0)));
}

#[test]
fn clip_list_clips_every_triangle_in_order() {
    let mut list = TriangleList::new();
    let kept = (p3(1, 1, 0), p3(2, 1, 0), p3(1, 2, 0));
    let gone = (p3(-1, 1, 0), p3(-2, 1, 0), p3(-1, 2, 0));
    let cut = (p3(2, 0, 0), p3(-2, 4, 0), p3(-2, -4, 0));
    list.push(kept);
    list.push(gone);
    list.push(cut);
    list.push(kept);
    let out = gather(&clip_list(p3(0, 0, 0), p3(1, 0, 0), &list));
    assert_eq!(out, vec![kept, (p3(2, 0, 0), p3(0, 2, 0), p3(0, -2, 0)), kept]);
    assert_eq!(list.len(), 4);
}

#[test]
fn triangle_inside_viewport_survives_screen_clip_unchanged() {
    let triangles = [
        (p3(10, 10, 0), p3(100, 20, 0), p3(50, 100, 0)),
        (p3(0, 0, 0), p3(159, 0, 0), p3(0, 127, 0)),
        (p3(159, 127, 5), p3(0, 127, -5), p3(159, 0, 9)),
    ];
    for t in triangles {
        assert_eq!(gather(&clip_to_screen(t, 160, 128)), vec![t]);
    }
}

#[test]
fn triangle_outside_viewport_is_clipped_away() {
    let above = (p3(10, -10, 0), p3(100, -20, 0), p3(50, -1, 0));
    assert_eq!(clip_to_screen(above, 160, 128).len(), 0);
    let right = (p3(160, 10, 0), p3(300, 20, 0), p3(200, 100, 0));
    assert_eq!(clip_to_screen(right, 160, 128).len(), 0);
    let inside = (p3(0, 0, 0), p3(0, 0, 0), p3(0, 0, 0));
    assert_eq!(clip_to_screen(inside, 0, 0).len(), 0);
}

#[test]
fn screen_clip_keeps_everything_on_the_surface() {
    let triangles = [
        (p3(-10, 20, 0), p3(50, 10, 0), p3(50, 40, 0)),
        (p3(-500, -500, 0), p3(900, -100, 0), p3(80, 700, 0)),
        (p3(80, -50, 0), p3(200, 64, 0), p3(80, 200, 0)),
        (p3(150, 120, 0), p3(170, 120, 0), p3(150, 140, 0)),
    ];
    for t in triangles {
        let sign = signed_area(&t).signum();
        let out = gather(&clip_to_screen(t, 160, 128));
        assert!(!out.is_empty());
        for piece in &out {
            for v in [piece.0, piece.1, piece.2] {
                assert!(0 <= v.x && v.x <= 159 * ONE);
                assert!(0 <= v.y && v.y <= 127 * ONE);
            }
            let area = signed_area(piece).signum();
            assert!(area == sign || area == 0);
        }
    }
}

#[test]
fn screen_clip_of_a_triangle_over_the_whole_surface_is_the_surface() {
    let t = (p3(-1000, -1000, 0), p3(3000, -1000, 0), p3(-1000, 3000, 0));
    let out = gather(&clip_to_screen(t, 160, 128));
    let total: i128 = out.iter().map(signed_area).sum();
    let surface = 2 * (159 * ONE as i128) * (127 * ONE as i128);
    assert_eq!(total, surface);
}

#[test]
fn quad_straddling_left_edge_survives_as_two_triangles() {
    let t = (p3(-10, 20, 0), p3(50, 10, 0), p3(50, 40, 0));
    let out = gather(&clip_to_screen(t, 160, 128));
    assert_eq!(out.len(), 2);
    for piece in &out {
        assert!(piece.0.x >= 0 && piece.1.x >= 0 && piece.2.x >= 0);
    }
}
