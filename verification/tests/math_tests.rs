use rasterizer::arith::isqrt;
use rasterizer::math::{
    barycentric, cross, dot, find_max, find_min, Triangle2d, Vec2i, Vec3f, Weights, COORD_MAX, UNIT,
};
use rasterizer::matrix::Matrix;
use rasterizer::utility::{find_bounding_box, find_screen_coordinates, swap};

fn tri(a: (i32, i32), b: (i32, i32), c: (i32, i32)) -> Triangle2d {
    Triangle2d {
        point_1: Vec2i { x: a.0, y: a.1 },
        point_2: Vec2i { x: b.0, y: b.1 },
        point_3: Vec2i { x: c.0, y: c.1 },
    }
}

fn v3(x: i64, y: i64, z: i64) -> Vec3f {
    Vec3f { x, y, z }
}

#[test]
fn constants_have_their_documented_values() {
    assert_eq!(UNIT, 1 << 20);
    assert_eq!(COORD_MAX, 1 << 29);
}

#[test]
fn find_min_is_componentwise() {
    let t = tri((3, 8), (5, 4), (7, 6));
    assert_eq!(find_min(&t), Vec2i { x: 3, y: 4 });
}

#[test]
fn find_max_is_componentwise() {
    let t = tri((3, 8), (5, 4), (7, 6));
    assert_eq!(find_max(&t), Vec2i { x: 7, y: 8 });
}

#[test]
fn find_min_and_max_of_negative_points() {
    let t = tri((-9, -2), (-5, -7), (-6, -3));
    assert_eq!(find_min(&t), Vec2i { x: -9, y: -7 });
    assert_eq!(find_max(&t), Vec2i { x: -5, y: -2 });
}

#[test]
fn find_min_and_max_at_the_limits() {
    let t = tri((i32::MIN, i32::MAX), (0, 0), (i32::MAX, i32::MIN));
    assert_eq!(find_min(&t), Vec2i { x: i32::MIN, y: i32::MIN });
    assert_eq!(find_max(&t), Vec2i { x: i32::MAX, y: i32::MAX });
}

#[test]
fn bounding_box_encloses_the_triangle() {
    let t = tri((2, 9), (8, 1), (5, 5));
    let bb = find_bounding_box(&t);
    assert_eq!(bb.min_values, Vec2i { x: 2, y: 1 });
    assert_eq!(bb.max_values, Vec2i { x: 8, y: 9 });
}

#[test]
fn bounding_box_of_a_single_point() {
    let t = tri((4, 4), (4, 4), (4, 4));
    let bb = find_bounding_box(&t);
    assert_eq!(bb.min_values, Vec2i { x: 4, y: 4 });
    assert_eq!(bb.max_values, Vec2i { x: 4, y: 4 });
}

#[test]
fn swap_exchanges_values() {
    let mut a = 3;
    let mut b = -8;
    swap(&mut a, &mut b);
    assert_eq!((a, b), (-8, 3));
}

#[test]
fn vector_difference() {
    assert_eq!(v3(5, 7, 9).sub(v3(1, 10, -3)), v3(4, -3, 12));
}

#[test]
fn vector_componentwise_product() {
    assert_eq!(v3(2, -3, 4).mul(v3(5, 6, -7)), v3(10, -18, -28));
}

#[test]
fn cross_product_of_axes_is_right_handed() {
    assert_eq!(cross(v3(1, 0, 0), v3(0, 1, 0)), v3(0, 0, 1));
    assert_eq!(cross(v3(0, 1, 0), v3(0, 0, 1)), v3(1, 0, 0));
    assert_eq!(cross(v3(0, 1, 0), v3(1, 0, 0)), v3(0, 0, -1));
}

#[test]
fn cross_product_formula() {
    assert_eq!(cross(v3(1, 2, 3), v3(4, 5, 6)), v3(-3, 6, -3));
}

#[test]
fn cross_product_of_large_components() {
    let a = v3(1 << 31, 0, 0);
    let b = v3(0, 1 << 31, 0);
    assert_eq!(cross(a, b), v3(0, 0, 1 << 62));
}

#[test]
fn dot_product_formula() {
    assert_eq!(dot(v3(1, 2, 3), v3(4, 5, 6)), 32);
    assert_eq!(dot(v3(1, 0, 0), v3(0, 1, 0)), 0);
}

#[test]
fn dot_product_with_cancelling_terms() {
    let big = i64::MAX;
    assert_eq!(dot(v3(big, big, 1), v3(1, -1, 7)), 7);
}

#[test]
fn isqrt_rounds_down() {
    assert_eq!(isqrt(0), 0);
    assert_eq!(isqrt(1), 1);
    assert_eq!(isqrt(3), 1);
    assert_eq!(isqrt(4), 2);
    assert_eq!(isqrt(24), 4);
    assert_eq!(isqrt(25), 5);
    assert_eq!(isqrt(u128::MAX), u64::MAX);
    assert_eq!(isqrt(1u128 << 126), 1u64 << 63);
}

#[test]
fn norm_is_the_rounded_length() {
    assert_eq!(v3(3, 4, 0).norm(), 5);
    assert_eq!(v3(1, 1, 1).norm(), 1);
    assert_eq!(v3(0, 0, 0).norm(), 0);
    assert_eq!(v3(-2, -3, -6).norm(), 7);
}

#[test]
fn norm_of_the_largest_vector() {
    // sqrt(3) * 2^63, rounded down
    assert_eq!(v3(i64::MIN, i64::MIN, i64::MIN).norm(), 15975348984942515101);
}

#[test]
fn normalize_scales_to_unit_length() {
    assert_eq!(v3(0, 0, -5).normalize(), v3(0, 0, -UNIT));
    assert_eq!(v3(7, 0, 0).normalize(), v3(UNIT, 0, 0));
}

#[test]
fn normalize_rounds_toward_zero() {
    // 3/5 and -4/5 of 1048576 are 629145.6 and -838860.8
    assert_eq!(v3(3, 0, -4).normalize(), v3(629145, 0, -838860));
    assert_eq!(v3(-3, 0, 4).normalize(), v3(-629145, 0, 838860));
}

#[test]
fn normalize_of_zero_is_zero() {
    assert_eq!(v3(0, 0, 0).normalize(), v3(0, 0, 0));
}

#[test]
fn normalize_of_a_short_vector_is_a_unit_vector() {
    // 1048576 / sqrt(3) = 605395.9 and 1048576 / sqrt(2) = 741455.2
    assert_eq!(v3(1, 1, 1).normalize(), v3(605395, 605395, 605395));
    assert_eq!(v3(1, 1, 0).normalize(), v3(741455, 741455, 0));
    assert_eq!(v3(-1, 1, -1).normalize(), v3(-605395, 605395, -605395));
    // 2 / 3 and 1 / 3 of 1048576 are 699050.7 and 349525.3
    assert_eq!(v3(2, -2, 1).normalize(), v3(699050, -699050, 349525));
}

#[test]
fn normalize_does_not_depend_on_the_length() {
    let unit = v3(1, 2, 3).normalize();
    assert_eq!(unit, v3(280243, 560487, 840731));
    for scale in [2, 1000, UNIT, 1 << 40, i64::MAX / 3] {
        assert_eq!(v3(scale, 2 * scale, 3 * scale).normalize(), unit);
    }
}

#[test]
fn normalize_gives_length_one_up_to_rounding() {
    let one = (UNIT * UNIT) as i128;
    let samples = [
        v3(1, 1, 1),
        v3(1, 0, 0),
        v3(1, 1, 0),
        v3(5, -7, 11),
        v3(123456789, -987654321, 555),
        v3(i64::MAX, i64::MAX, i64::MAX),
        v3(i64::MIN, i64::MIN, i64::MIN),
        v3(i64::MIN, 1, -1),
        v3(-3, 65535, 65537),
    ];
    for v in samples {
        let r = v.normalize();
        let len2 = (r.x as i128).pow(2) + (r.y as i128).pow(2) + (r.z as i128).pow(2);
        assert!(len2 <= one, "{:?}", v);
        assert!(len2 > one - 4 * UNIT as i128 - 3, "{:?}", v);
        let length = (len2 as f64).sqrt() / UNIT as f64;
        assert!((length - 1.0).abs() <= 1e-5, "{:?}", v);
        assert_eq!(r.x.signum() * v.x.signum(), if r.x == 0 { 0 } else { 1 });
        assert_eq!(r.y.signum() * v.y.signum(), if r.y == 0 { 0 } else { 1 });
        assert_eq!(r.z.signum() * v.z.signum(), if r.z == 0 { 0 } else { 1 });
    }
}

#[test]
fn normalize_at_the_limits() {
    assert_eq!(v3(i64::MIN, 0, 0).normalize(), v3(-UNIT, 0, 0));
    assert_eq!(v3(i64::MAX, i64::MAX, i64::MAX).normalize(), v3(605395, 605395, 605395));
    assert_eq!(v3(i64::MIN, i64::MIN, i64::MIN).normalize(), v3(-605395, -605395, -605395));
}

#[test]
fn barycentric_weights_of_an_interior_point() {
    let t = tri((0, 0), (4, 0), (0, 4));
    let w = barycentric(&t, Vec2i { x: 1, y: 1 });
    assert_eq!(w, Weights { w1: 8, w2: 4, w3: 4, denom: 16 });
    assert!(w.is_inside());
}

#[test]
fn barycentric_weights_sum_to_the_denominator() {
    let t = tri((1, 2), (9, 3), (4, 11));
    for x in -3..15 {
        for y in -3..15 {
            let w = barycentric(&t, Vec2i { x, y });
            assert!(w.denom > 0);
            assert_eq!(w.w1 + w.w2 + w.w3, w.denom);
        }
    }
}

#[test]
fn barycentric_weights_reproduce_the_point() {
    let t = tri((1, 2), (9, 3), (4, 11));
    let w = barycentric(&t, Vec2i { x: 5, y: 6 });
    assert_eq!(w.w1 * 1 + w.w2 * 9 + w.w3 * 4, w.denom * 5);
    assert_eq!(w.w1 * 2 + w.w2 * 3 + w.w3 * 11, w.denom * 6);
}

#[test]
fn barycentric_weights_at_the_vertices() {
    let t = tri((0, 0), (4, 0), (0, 4));
    assert_eq!(barycentric(&t, Vec2i { x: 0, y: 0 }), Weights { w1: 16, w2: 0, w3: 0, denom: 16 });
    assert_eq!(barycentric(&t, Vec2i { x: 4, y: 0 }), Weights { w1: 0, w2: 16, w3: 0, denom: 16 });
    assert_eq!(barycentric(&t, Vec2i { x: 0, y: 4 }), Weights { w1: 0, w2: 0, w3: 16, denom: 16 });
}

#[test]
fn barycentric_interior_weights_are_positive() {
    let t = tri((0, 0), (10, 0), (0, 10));
    let w = barycentric(&t, Vec2i { x: 3, y: 3 });
    assert!(w.w1 > 0 && w.w2 > 0 && w.w3 > 0);
    let clockwise = tri((0, 0), (0, 10), (10, 0));
    let w = barycentric(&clockwise, Vec2i { x: 3, y: 3 });
    assert!(w.w1 > 0 && w.w2 > 0 && w.w3 > 0);
}

#[test]
fn barycentric_exterior_point_has_a_negative_weight() {
    let t = tri((0, 0), (10, 0), (0, 10));
    for p in [(-1, 3), (3, -1), (8, 8), (20, 20), (-5, -5)] {
        let w = barycentric(&t, Vec2i { x: p.0, y: p.1 });
        assert!(w.w1 < 0 || w.w2 < 0 || w.w3 < 0);
        assert!(!w.is_inside());
    }
}

#[test]
fn barycentric_boundary_point_counts_as_inside() {
    let t = tri((0, 0), (10, 0), (0, 10));
    let w = barycentric(&t, Vec2i { x: 5, y: 5 });
    assert_eq!(w.w1, 0);
    assert!(w.is_inside());
}

#[test]
fn barycentric_of_a_collinear_triangle_is_outside_everywhere() {
    let t = tri((0, 0), (2, 0), (4, 0));
    for x in -1..6 {
        for y in -1..2 {
            let w = barycentric(&t, Vec2i { x, y });
            assert_eq!(w, Weights { w1: -1, w2: 1, w3: 1, denom: 1 });
            assert!(!w.is_inside());
        }
    }
}

#[test]
fn barycentric_at_the_coordinate_limits() {
    let t = tri((i32::MIN, i32::MIN), (i32::MAX, i32::MIN), (i32::MIN, i32::MAX));
    let w = barycentric(&t, Vec2i { x: i32::MAX, y: i32::MAX });
    let side = (1i128 << 32) - 1;
    assert_eq!(w.denom, side * side);
    assert_eq!(w.w1 + w.w2 + w.w3, w.denom);
    assert_eq!(w.w1, -(side * side));
}

#[test]
fn projection_of_the_lower_corner() {
    for (w, h) in [(1, 1), (10, 10), (500, 300), (0, 0), (u32::MAX, u32::MAX)] {
        let p = find_screen_coordinates(&v3(-UNIT, -UNIT, 12345), w, h);
        assert_eq!(p, Vec2i { x: 0, y: 0 });
    }
}

#[test]
fn projection_of_the_upper_corner() {
    for (w, h) in [(1u32, 1u32), (10, 10), (500, 300), (7, 1 << 31)] {
        let p = find_screen_coordinates(&v3(UNIT, UNIT, -777), w, h);
        assert_eq!(p, Vec2i { x: (w - 1) as i32, y: (h - 1) as i32 });
    }
}

#[test]
fn projection_formula() {
    // floor((x + 1) * width / 2)
    assert_eq!(find_screen_coordinates(&v3(0, 0, 0), 10, 20), Vec2i { x: 5, y: 10 });
    assert_eq!(find_screen_coordinates(&v3(UNIT / 2, -UNIT / 2, 0), 10, 20), Vec2i { x: 7, y: 5 });
    assert_eq!(find_screen_coordinates(&v3(-UNIT + 1, -1, 0), 500, 500), Vec2i { x: 0, y: 249 });
}

#[test]
fn projection_clamps_both_axes_on_both_sides() {
    assert_eq!(find_screen_coordinates(&v3(3 * UNIT, -3 * UNIT, 0), 10, 20), Vec2i { x: 9, y: 0 });
    assert_eq!(find_screen_coordinates(&v3(-3 * UNIT, 3 * UNIT, 0), 10, 20), Vec2i { x: 0, y: 19 });
    assert_eq!(
        find_screen_coordinates(&v3(i64::MAX, i64::MIN, 0), 10, 20),
        Vec2i { x: 9, y: 0 }
    );
}

#[test]
fn projection_never_leaves_the_screen_point_range() {
    let p = find_screen_coordinates(&v3(UNIT, UNIT, 0), u32::MAX, u32::MAX);
    assert_eq!(p, Vec2i { x: i32::MAX, y: i32::MAX });
}

#[test]
fn new_matrix_is_zero() {
    let mut m = Matrix::new(2, 3);
    assert_eq!((m.rows, m.cols), (2, 3));
    assert_eq!(m.data, vec![0; 6]);
    m.set(1, 2, 7);
    assert_eq!(m.data, vec![0, 0, 0, 0, 0, 7]);
    assert_eq!(m.get(1, 2), 7);
    assert_eq!(m.get(0, 2), 0);
}

#[test]
fn identity_matrix() {
    let m = Matrix::identity(4);
    assert_eq!((m.rows, m.cols), (4, 4));
    for i in 0..4 {
        for j in 0..4 {
            assert_eq!(m.get(i, j), if i == j { 1 } else { 0 });
        }
    }
}

#[test]
fn identity_of_size_zero_is_empty() {
    let m = Matrix::identity(0);
    assert_eq!((m.rows, m.cols), (0, 0));
    assert!(m.data.is_empty());
}

#[test]
fn matrix_product() {
    let a = Matrix { rows: 2, cols: 3, data: vec![1, 2, 3, 4, 5, 6] };
    let b = Matrix { rows: 3, cols: 2, data: vec![7, 8, 9, 10, 11, 12] };
    let c = a.mul(&b);
    assert_eq!((c.rows, c.cols), (2, 2));
    assert_eq!(c.data, vec![58, 64, 139, 154]);
}

#[test]
fn identity_times_column_is_the_column() {
    let v = v3(3 * UNIT, -2 * UNIT, 5);
    let c = Matrix::identity(4).mul(&v.to_matrix());
    assert_eq!((c.rows, c.cols), (4, 1));
    assert_eq!(c.data, vec![3 * UNIT, -2 * UNIT, 5, UNIT]);
}

#[test]
fn vector_to_matrix_and_back() {
    let v = v3(3 * UNIT, -2 * UNIT, 5);
    let m = v.to_matrix();
    assert_eq!(m.data, vec![3 * UNIT, -2 * UNIT, 5, UNIT]);
    assert_eq!(m.to_vec(), Some(v));
}

#[test]
fn to_vec_divides_by_the_last_component() {
    let m = Matrix { rows: 4, cols: 1, data: vec![6, -9, 7, 3] };
    // 6/3, -9/3 and 7/3, the last one rounded toward zero
    assert_eq!(m.to_vec(), Some(v3(2 * UNIT, -3 * UNIT, 2446677)));
    let n = Matrix { rows: 4, cols: 1, data: vec![6, -9, 7, -3] };
    assert_eq!(n.to_vec(), Some(v3(-2 * UNIT, 3 * UNIT, -2446677)));
}

#[test]
fn to_vec_of_a_point_at_infinity_is_none() {
    let m = Matrix { rows: 4, cols: 1, data: vec![1, 2, 3, 0] };
    assert_eq!(m.to_vec(), None);
}

#[test]
fn to_vec_of_a_short_column_is_none() {
    let m = Matrix { rows: 3, cols: 1, data: vec![1, 2, 3] };
    assert_eq!(m.to_vec(), None);
    let e = Matrix { rows: 4, cols: 0, data: vec![] };
    assert_eq!(e.to_vec(), None);
}

#[test]
fn to_vec_of_an_overflowing_quotient_is_none() {
    let m = Matrix { rows: 4, cols: 1, data: vec![i64::MAX, 0, 0, 1] };
    assert_eq!(m.to_vec(), None);
}
