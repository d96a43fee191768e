use softraster::matrix::{
    mat4_get_look_at, mat4_get_projection, mat4_identity, mat4_mul_mat4, mat4_mul_vec4,
    mat4_rotate, mat4_scale, mat4_translate, Mat4,
};
use softraster::scalar::{LIMIT, ONE};
use softraster::vector::{Vec3, Vec4};

fn v3(x: i64, y: i64, z: i64) -> Vec3 {
    Vec3 { x: x * ONE, y: y * ONE, z: z * ONE }
}

fn v4(x: i64, y: i64, z: i64, w: i64) -> Vec4 {
    Vec4 { x: x * ONE, y: y * ONE, z: z * ONE, w: w * ONE }
}

fn rows(r0: Vec4, r1: Vec4, r2: Vec4, r3: Vec4) -> Mat4 {
    Mat4 { r0, r1, r2, r3 }
}

#[test]
fn identity_has_ones_on_the_diagonal() {
    let m = mat4_identity();
    assert_eq!(m, rows(v4(1, 0, 0, 0), v4(0, 1, 0, 0), v4(0, 0, 1, 0), v4(0, 0, 0, 1)));
    assert!(m.is_wf());
}

#[test]
fn identity_leaves_vectors_and_matrices_alone() {
    let v = v4(3, -4, 5, 1);
    assert_eq!(mat4_mul_vec4(mat4_identity(), v), Some(v));
    let m = rows(v4(1, 2, 3, 4), v4(5, 6, 7, 8), v4(9, 10, 11, 12), v4(13, 14, 15, 16));
    assert_eq!(mat4_mul_mat4(m, mat4_identity()), Some(m));
    assert_eq!(mat4_mul_mat4(mat4_identity(), m), Some(m));
}

#[test]
fn matrix_times_vector_is_rows_dot_vector() {
    let m = rows(v4(1, 2, 3, 4), v4(0, 1, 0, 0), v4(2, 0, 0, -1), v4(0, 0, 0, 1));
    assert_eq!(mat4_mul_vec4(m, v4(1, 1, 1, 1)), Some(v4(10, 1, 1, 1)));
    assert_eq!(mat4_mul_vec4(m, v4(2, -1, 0, 1)), Some(v4(4, -1, 3, 1)));
}

#[test]
fn matrix_product_applies_the_right_factor_first() {
    let scale = rows(v4(2, 0, 0, 0), v4(0, 2, 0, 0), v4(0, 0, 2, 0), v4(0, 0, 0, 1));
    let shift = rows(v4(1, 0, 0, 5), v4(0, 1, 0, 0), v4(0, 0, 1, 0), v4(0, 0, 0, 1));
    let shift_then_scale = mat4_mul_mat4(scale, shift).unwrap();
    let scale_then_shift = mat4_mul_mat4(shift, scale).unwrap();
    assert_eq!(mat4_mul_vec4(shift_then_scale, v4(1, 0, 0, 1)), Some(v4(12, 0, 0, 1)));
    assert_eq!(mat4_mul_vec4(scale_then_shift, v4(1, 0, 0, 1)), Some(v4(7, 0, 0, 1)));
}

#[test]
fn matrix_operations_report_leaving_the_range() {
    let big = rows(
        Vec4 { x: LIMIT, y: 0, z: 0, w: 0 },
        v4(0, 1, 0, 0),
        v4(0, 0, 1, 0),
        v4(0, 0, 0, 1),
    );
    assert!(big.is_wf());
    assert_eq!(mat4_mul_vec4(big, v4(2, 0, 0, 1)), None);
    assert_eq!(mat4_mul_mat4(big, big), None);
    assert_eq!(mat4_scale(big, v3(2, 1, 1)), None);
    let shifted = rows(
        Vec4 { x: ONE, y: 0, z: 0, w: LIMIT },
        v4(0, 1, 0, 0),
        v4(0, 0, 1, 0),
        v4(0, 0, 0, 1),
    );
    assert_eq!(mat4_translate(shifted, v3(1, 0, 0)), None);
    let not_stored = rows(
        Vec4 { x: LIMIT + 1, y: 0, z: 0, w: 0 },
        v4(0, 1, 0, 0),
        v4(0, 0, 1, 0),
        v4(0, 0, 0, 1),
    );
    assert!(!not_stored.is_wf());
}

#[test]
fn scale_rotate_translate_chain_applies_in_that_order() {
    let m = mat4_identity();
    let m = mat4_scale(m, v3(2, 3, 4)).unwrap();
    // A quarter turn about z takes x to y and y to minus x.
    let m = mat4_rotate(m, ONE, 0, v3(0, 0, 1)).unwrap();
    let m = mat4_translate(m, v3(10, 20, 30)).unwrap();
    // (1, 1, 1) is scaled to (2, 3, 4), turned to (-3, 2, 4), moved to (7, 22, 34).
    assert_eq!(mat4_mul_vec4(m, v4(1, 1, 1, 1)), Some(v4(7, 22, 34, 1)));
    // A direction is not moved.
    assert_eq!(mat4_mul_vec4(m, v4(1, 0, 0, 0)), Some(v4(0, 2, 0, 0)));
}

#[test]
fn scale_acts_after_the_given_transform() {
    let shift = mat4_translate(mat4_identity(), v3(1, 2, 3)).unwrap();
    let m = mat4_scale(shift, v3(2, 2, 2)).unwrap();
    assert_eq!(mat4_mul_vec4(m, v4(0, 0, 0, 1)), Some(v4(2, 4, 6, 1)));
    assert_eq!(
        m,
        rows(v4(2, 0, 0, 2), v4(0, 2, 0, 4), v4(0, 0, 2, 6), v4(0, 0, 0, 1))
    );
}

#[test]
fn rotate_normalizes_its_axis() {
    let unit = mat4_rotate(mat4_identity(), ONE, 0, v3(0, 0, 1)).unwrap();
    let long = mat4_rotate(mat4_identity(), ONE, 0, v3(0, 0, 250)).unwrap();
    assert_eq!(unit, long);
    assert_eq!(
        unit,
        rows(v4(0, -1, 0, 0), v4(1, 0, 0, 0), v4(0, 0, 1, 0), v4(0, 0, 0, 1))
    );
}

#[test]
fn rotate_about_each_axis_is_right_handed() {
    let about_x = mat4_rotate(mat4_identity(), ONE, 0, v3(1, 0, 0)).unwrap();
    assert_eq!(mat4_mul_vec4(about_x, v4(0, 1, 0, 1)), Some(v4(0, 0, 1, 1)));
    let about_y = mat4_rotate(mat4_identity(), ONE, 0, v3(0, 1, 0)).unwrap();
    assert_eq!(mat4_mul_vec4(about_y, v4(0, 0, 1, 1)), Some(v4(1, 0, 0, 1)));
    let half_turn = mat4_rotate(mat4_identity(), 0, -ONE, v3(0, 1, 0)).unwrap();
    assert_eq!(mat4_mul_vec4(half_turn, v4(1, 2, 3, 1)), Some(v4(-1, 2, -3, 1)));
    let none = mat4_rotate(mat4_identity(), 0, ONE, v3(1, 1, 1)).unwrap();
    assert_eq!(mat4_mul_vec4(none, v4(1, 2, 3, 1)), Some(v4(1, 2, 3, 1)));
}

#[test]
fn rotate_has_no_result_about_the_zero_vector() {
    assert_eq!(mat4_rotate(mat4_identity(), ONE, 0, v3(0, 0, 0)), None);
}

#[test]
fn projection_of_a_right_angle_field_of_view() {
    let m = mat4_get_projection(ONE, ONE, ONE, 3 * ONE).unwrap();
    assert_eq!(
        m,
        rows(v4(1, 0, 0, 0), v4(0, 1, 0, 0), v4(0, 0, 2, -3), v4(0, 0, 1, 0))
    );
    // Depth runs from minus one at the near plane to one at the far plane.
    assert_eq!(mat4_mul_vec4(m, v4(0, 0, 1, 1)), Some(v4(0, 0, -1, 1)));
    assert_eq!(mat4_mul_vec4(m, v4(0, 0, 3, 1)), Some(v4(0, 0, 3, 3)));
}

#[test]
fn projection_scales_by_the_cotangent_and_the_aspect() {
    // Half the field of view has tangent one half; the surface is twice as wide as high.
    let m = mat4_get_projection(2 * ONE, ONE / 2, ONE, 3 * ONE).unwrap();
    assert_eq!(m.r0, v4(1, 0, 0, 0));
    assert_eq!(m.r1, v4(0, 2, 0, 0));
}

#[test]
fn projection_depth_is_monotonic() {
    let m = mat4_get_projection(ONE, ONE, 6553, 50 * ONE).unwrap();
    let mut last = i64::MIN;
    for z in [6553, ONE, 2 * ONE, 10 * ONE, 49 * ONE, 50 * ONE] {
        let c = mat4_mul_vec4(m, Vec4 { x: 0, y: 0, z, w: ONE }).unwrap();
        assert_eq!(c.w, z);
        // Compare c.z / c.w with the last quotient, without rounding.
        let depth = (c.z as i128 * (ONE as i128)) / (c.w as i128);
        assert!(depth as i64 > last);
        last = depth as i64;
    }
}

#[test]
fn projection_needs_nonzero_divisors() {
    assert_eq!(mat4_get_projection(ONE, 0, ONE, 3 * ONE), None);
    assert_eq!(mat4_get_projection(0, ONE, ONE, 3 * ONE), None);
    assert_eq!(mat4_get_projection(ONE, ONE, ONE, ONE), None);
}

#[test]
fn projection_reports_an_entry_out_of_range() {
    // The smallest tangent gives a focal scale of 65536; the smallest aspect
    // scales it by 65536 once more.
    let narrow = mat4_get_projection(ONE, 1, ONE, 3 * ONE).unwrap();
    assert_eq!(narrow.r1.y, ONE * ONE);
    assert_eq!(mat4_get_projection(1, 1, ONE, 3 * ONE), None);
    // Planes one raw unit apart scale depth beyond the range.
    assert_eq!(mat4_get_projection(ONE, ONE, 1 << 30, (1 << 30) + 1), None);
}

#[test]
fn look_at_down_the_z_axis_is_the_identity() {
    let m = mat4_get_look_at(v3(0, 0, 0), v3(0, 0, 1), v3(0, 1, 0));
    assert_eq!(m, Some(mat4_identity()));
    let far_target = mat4_get_look_at(v3(0, 0, 0), v3(0, 0, 77), v3(0, 1, 0));
    assert_eq!(far_target, Some(mat4_identity()));
}

#[test]
fn look_at_moves_the_eye_to_the_origin() {
    let m = mat4_get_look_at(v3(0, 0, -10), v3(0, 0, -9), v3(0, 1, 0)).unwrap();
    assert_eq!(
        m,
        rows(v4(1, 0, 0, 0), v4(0, 1, 0, 0), v4(0, 0, 1, 10), v4(0, 0, 0, 1))
    );
    assert_eq!(mat4_mul_vec4(m, v4(0, 0, -10, 1)), Some(v4(0, 0, 0, 1)));
}

#[test]
fn look_at_along_x_turns_the_frame() {
    let m = mat4_get_look_at(v3(1, 2, 3), v3(5, 2, 3), v3(0, 1, 0)).unwrap();
    assert_eq!(
        m,
        rows(v4(0, 0, -1, 3), v4(0, 1, 0, -2), v4(1, 0, 0, -1), v4(0, 0, 0, 1))
    );
    // The target lies straight ahead, four units away.
    assert_eq!(mat4_mul_vec4(m, v4(5, 2, 3, 1)), Some(v4(0, 0, 4, 1)));
    // A point to the left of the line of sight has negative x.
    assert_eq!(mat4_mul_vec4(m, v4(5, 2, 4, 1)), Some(v4(-1, 0, 4, 1)));
}

#[test]
fn look_at_without_a_frame_is_the_identity() {
    let eye = v3(1, 2, 3);
    assert_eq!(mat4_get_look_at(eye, eye, v3(0, 1, 0)), Some(mat4_identity()));
    assert_eq!(mat4_get_look_at(eye, v3(1, 9, 3), v3(0, 1, 0)), Some(mat4_identity()));
    assert_eq!(mat4_get_look_at(eye, v3(1, -9, 3), v3(0, 1, 0)), Some(mat4_identity()));
    assert_eq!(mat4_get_look_at(eye, v3(2, 2, 3), v3(0, 0, 0)), Some(mat4_identity()));
}

#[test]
fn look_at_reports_an_offset_out_of_range() {
    let eye = Vec3 { x: LIMIT, y: LIMIT, z: LIMIT };
    let target = Vec3 { x: LIMIT - ONE, y: LIMIT - ONE, z: LIMIT - ONE };
    assert_eq!(mat4_get_look_at(eye, target, v3(0, 1, 0)), None);
}
