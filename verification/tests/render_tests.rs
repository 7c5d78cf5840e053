use rasterizer::buffer::{Color, Image};
use rasterizer::math::{barycentric, Triangle2d, Triangle3d, Vec2f, Vec2i, Vec3f, COORD_MAX, UNIT};
use rasterizer::mesh::{Mesh, MeshError};
use rasterizer::render::{draw_triangle, render, RenderError, DEPTH_SENTINEL};
use rasterizer::shading::{
    face_intensity, light_direction, shade_color, shade_one, TriangleTexture, FULL_INTENSITY,
};

const BLACK: Color = Color { r: 0, g: 0, b: 0 };
const RED: Color = Color { r: 255, g: 0, b: 0 };
const GREEN: Color = Color { r: 0, g: 255, b: 0 };
const SAND: Color = Color { r: 200, g: 100, b: 50 };

/// The coordinate that projects to pixel 6 of a ten-pixel axis.
const SIX: i64 = UNIT / 4;

fn v3(x: i64, y: i64, z: i64) -> Vec3f {
    Vec3f { x, y, z }
}

/// A front-facing triangle that covers the pixels with `x + y <= 6` of a 10 by 10 frame.
fn front(z: i64) -> Triangle3d {
    Triangle3d {
        vertex_1: v3(-UNIT, -UNIT, z),
        vertex_2: v3(SIX, -UNIT, z),
        vertex_3: v3(-UNIT, SIX, z),
    }
}

fn back(z: i64) -> Triangle3d {
    Triangle3d {
        vertex_1: v3(-UNIT, -UNIT, z),
        vertex_2: v3(-UNIT, SIX, z),
        vertex_3: v3(SIX, -UNIT, z),
    }
}

fn corner_uv() -> TriangleTexture {
    TriangleTexture {
        point_1: Vec2f { x: 0, y: 0 },
        point_2: Vec2f { x: UNIT, y: 0 },
        point_3: Vec2f { x: 0, y: UNIT },
    }
}

fn covered(x: u32, y: u32) -> bool {
    x + y <= 6
}

fn canvas() -> (Image, Vec<i64>) {
    (Image::new(10, 10, BLACK).unwrap(), vec![DEPTH_SENTINEL; 100])
}

fn count(img: &Image, color: Color) -> usize {
    let mut n = 0;
    for y in 0..img.height() {
        for x in 0..img.width() {
            if img.get_pixel(x, y) == Some(color) {
                n += 1;
            }
        }
    }
    n
}

#[test]
fn depth_sentinel_is_below_every_depth() {
    assert_eq!(DEPTH_SENTINEL, i64::MIN);
    assert!(DEPTH_SENTINEL < -COORD_MAX);
}

#[test]
fn light_points_down_the_z_axis() {
    assert_eq!(light_direction(), v3(0, 0, -UNIT));
    assert_eq!(FULL_INTENSITY, UNIT * UNIT);
}

#[test]
fn intensity_of_a_face_that_looks_into_the_light() {
    assert_eq!(face_intensity(&front(0)), Some(FULL_INTENSITY));
}

#[test]
fn intensity_of_a_back_face_is_none() {
    assert_eq!(face_intensity(&back(0)), None);
}

#[test]
fn intensity_of_a_tilted_face() {
    // the normal is (0, 3, -4) / 5
    let t = Triangle3d {
        vertex_1: v3(-UNIT, -UNIT, 0),
        vertex_2: v3(SIX, -UNIT, 0),
        vertex_3: v3(-UNIT, SIX, 983040),
    };
    assert_eq!(face_intensity(&t), Some(838860 * UNIT));
}

#[test]
fn intensity_of_a_face_with_a_short_normal() {
    // the cross product of the two edges is (1, 1, -1)
    let t = Triangle3d {
        vertex_1: v3(0, 0, 0),
        vertex_2: v3(1, 0, 1),
        vertex_3: v3(0, 1, 1),
    };
    assert_eq!(face_intensity(&t), Some(605395 * UNIT));
    // and the same face a million times as large has the same intensity
    let big = Triangle3d {
        vertex_1: v3(0, 0, 0),
        vertex_2: v3(1000000, 0, 1000000),
        vertex_3: v3(0, 1000000, 1000000),
    };
    assert_eq!(face_intensity(&big), Some(605395 * UNIT));
}

#[test]
fn intensity_of_an_edge_on_face_is_zero() {
    let t = Triangle3d {
        vertex_1: v3(0, 0, 0),
        vertex_2: v3(UNIT, 0, 0),
        vertex_3: v3(0, 0, UNIT),
    };
    assert_eq!(face_intensity(&t), Some(0));
}

#[test]
fn intensity_of_collinear_vertices_is_none() {
    let t = Triangle3d {
        vertex_1: v3(0, 0, 0),
        vertex_2: v3(UNIT, UNIT, UNIT),
        vertex_3: v3(2 * UNIT, 2 * UNIT, 2 * UNIT),
    };
    assert_eq!(face_intensity(&t), None);
}

#[test]
fn intensity_at_the_coordinate_limits() {
    let t = Triangle3d {
        vertex_1: v3(-COORD_MAX, -COORD_MAX, COORD_MAX),
        vertex_2: v3(COORD_MAX, -COORD_MAX, COORD_MAX),
        vertex_3: v3(-COORD_MAX, COORD_MAX, COORD_MAX),
    };
    assert_eq!(face_intensity(&t), Some(FULL_INTENSITY));
}

#[test]
fn shade_rounds_to_the_nearest_value() {
    assert_eq!(shade_one(FULL_INTENSITY, 200), 200);
    assert_eq!(shade_one(0, 200), 0);
    assert_eq!(shade_one(FULL_INTENSITY / 2, 255), 128);
    assert_eq!(shade_one(FULL_INTENSITY / 2, 1), 1);
    assert_eq!(shade_one(FULL_INTENSITY / 4, 1), 0);
    assert_eq!(shade_one(838860 * UNIT, 255), 204);
}

#[test]
fn shade_clamps_to_eight_bits() {
    assert_eq!(shade_one(2 * FULL_INTENSITY, 200), 255);
    assert_eq!(shade_one(-FULL_INTENSITY, 200), 0);
    assert_eq!(shade_one(i64::MAX, 255), 255);
    assert_eq!(shade_one(i64::MIN, 255), 0);
}

#[test]
fn shade_color_works_channel_by_channel() {
    assert_eq!(shade_color(838860 * UNIT, SAND), Color { r: 160, g: 80, b: 40 });
    assert_eq!(shade_color(FULL_INTENSITY, SAND), SAND);
}

#[test]
fn weights_interpolate_a_value() {
    let t = Triangle2d {
        point_1: Vec2i { x: 0, y: 0 },
        point_2: Vec2i { x: 6, y: 0 },
        point_3: Vec2i { x: 0, y: 6 },
    };
    let w = barycentric(&t, Vec2i { x: 2, y: 3 });
    assert_eq!(w.interpolate(0, 600, 1200), 800);
    assert_eq!(w.interpolate(7, 7, 7), 7);
    // (1 * 10 + 2 * 0 + 3 * 0) / 6 = 1.67 and its negative both round toward zero
    assert_eq!(w.interpolate(10, 0, 0), 1);
    assert_eq!(w.interpolate(-10, 0, 0), -1);
}

#[test]
fn weights_pick_a_texel() {
    let t = Triangle2d {
        point_1: Vec2i { x: 0, y: 0 },
        point_2: Vec2i { x: 6, y: 0 },
        point_3: Vec2i { x: 0, y: 6 },
    };
    let w = barycentric(&t, Vec2i { x: 2, y: 3 });
    // u = 2/6 and v = 3/6 of a texture of 8 texels
    assert_eq!(w.texel(0, UNIT, 0, 8), 2);
    assert_eq!(w.texel(0, 0, UNIT, 8), 4);
    // coordinates outside [0, 1) are clamped to the first and the last texel
    assert_eq!(w.texel(UNIT, UNIT, UNIT, 8), 7);
    assert_eq!(w.texel(5 * UNIT, 5 * UNIT, 5 * UNIT, 8), 7);
    assert_eq!(w.texel(-UNIT, -UNIT, -UNIT, 8), 0);
    assert_eq!(w.texel(-1, -1, -1, 8), 0);
}

#[test]
fn front_facing_triangle_is_filled_with_the_texture_colour() {
    let (mut frame, mut depth) = canvas();
    let texture = Image::new(4, 4, SAND).unwrap();
    draw_triangle(&mut frame, front(0), &mut depth, &texture, corner_uv());
    for y in 0..10 {
        for x in 0..10 {
            let expected = if covered(x, y) { SAND } else { BLACK };
            assert_eq!(frame.get_pixel(x, y), Some(expected), "pixel ({}, {})", x, y);
            let stored = if covered(x, y) { 0 } else { DEPTH_SENTINEL };
            assert_eq!(depth[(x + y * 10) as usize], stored);
        }
    }
}

#[test]
fn back_facing_triangle_draws_nothing() {
    let (mut frame, mut depth) = canvas();
    let texture = Image::new(4, 4, SAND).unwrap();
    draw_triangle(&mut frame, back(0), &mut depth, &texture, corner_uv());
    assert_eq!(count(&frame, BLACK), 100);
    assert!(depth.iter().all(|d| *d == DEPTH_SENTINEL));
}

#[test]
fn triangle_that_is_collinear_on_the_screen_draws_nothing() {
    let (mut frame, mut depth) = canvas();
    let texture = Image::new(4, 4, SAND).unwrap();
    // front-facing in space, but its vertices fall on the pixels (0,0), (2,0) and (4,0)
    let flat = Triangle3d {
        vertex_1: v3(-UNIT, -UNIT, 0),
        vertex_2: v3(-UNIT + 2 * UNIT / 5 + 1, -UNIT, 0),
        vertex_3: v3(-UNIT + 4 * UNIT / 5 + 1, -UNIT + 100, 0),
    };
    assert!(face_intensity(&flat).is_some());
    draw_triangle(&mut frame, flat, &mut depth, &texture, corner_uv());
    assert_eq!(count(&frame, BLACK), 100);
    assert!(depth.iter().all(|d| *d == DEPTH_SENTINEL));
}

#[test]
fn triangle_within_one_pixel_draws_nothing() {
    let (mut frame, mut depth) = canvas();
    let texture = Image::new(4, 4, SAND).unwrap();
    let tiny = Triangle3d {
        vertex_1: v3(0, 0, 0),
        vertex_2: v3(100, 0, 0),
        vertex_3: v3(0, 100, 0),
    };
    draw_triangle(&mut frame, tiny, &mut depth, &texture, corner_uv());
    assert_eq!(count(&frame, BLACK), 100);
}

#[test]
fn triangle_with_collinear_vertices_draws_nothing() {
    let (mut frame, mut depth) = canvas();
    let texture = Image::new(4, 4, SAND).unwrap();
    let line = Triangle3d {
        vertex_1: v3(-UNIT, -UNIT, 0),
        vertex_2: v3(0, 0, 0),
        vertex_3: v3(UNIT, UNIT, 0),
    };
    draw_triangle(&mut frame, line, &mut depth, &texture, corner_uv());
    assert_eq!(count(&frame, BLACK), 100);
}

#[test]
fn empty_texture_draws_nothing() {
    let (mut frame, mut depth) = canvas();
    let texture = Image::new(0, 0, SAND).unwrap();
    draw_triangle(&mut frame, front(0), &mut depth, &texture, corner_uv());
    assert_eq!(count(&frame, BLACK), 100);
    assert!(depth.iter().all(|d| *d == DEPTH_SENTINEL));
}

#[test]
fn frame_without_pixels_is_left_alone() {
    let mut frame = Image::new(0, 7, BLACK).unwrap();
    let mut depth: Vec<i64> = Vec::new();
    let texture = Image::new(4, 4, SAND).unwrap();
    draw_triangle(&mut frame, front(0), &mut depth, &texture, corner_uv());
    assert_eq!((frame.width(), frame.height()), (0, 7));
    assert!(depth.is_empty());
}

#[test]
fn greater_depth_wins_whatever_the_order() {
    let red = Image::new(1, 1, RED).unwrap();
    let green = Image::new(1, 1, GREEN).unwrap();

    let (mut frame, mut depth) = canvas();
    draw_triangle(&mut frame, front(5), &mut depth, &red, corner_uv());
    draw_triangle(&mut frame, front(3), &mut depth, &green, corner_uv());
    assert_eq!(count(&frame, RED), 28);
    assert_eq!(count(&frame, GREEN), 0);

    let (mut frame, mut depth) = canvas();
    draw_triangle(&mut frame, front(3), &mut depth, &green, corner_uv());
    draw_triangle(&mut frame, front(5), &mut depth, &red, corner_uv());
    assert_eq!(count(&frame, RED), 28);
    assert_eq!(count(&frame, GREEN), 0);
}

#[test]
fn equal_depth_does_not_replace_a_pixel() {
    let red = Image::new(1, 1, RED).unwrap();
    let green = Image::new(1, 1, GREEN).unwrap();
    let (mut frame, mut depth) = canvas();
    draw_triangle(&mut frame, front(5), &mut depth, &red, corner_uv());
    draw_triangle(&mut frame, front(5), &mut depth, &green, corner_uv());
    assert_eq!(count(&frame, RED), 28);
}

#[test]
fn stored_depth_never_decreases() {
    let red = Image::new(1, 1, RED).unwrap();
    let (mut frame, mut depth) = canvas();
    let mut previous = depth.clone();
    for z in [4, -7, 9, 9, 0, -COORD_MAX, COORD_MAX, 12] {
        draw_triangle(&mut frame, front(z), &mut depth, &red, corner_uv());
        for i in 0..100 {
            assert!(depth[i] >= previous[i]);
        }
        previous = depth.clone();
    }
    assert_eq!(depth[0], COORD_MAX);
    assert_eq!(depth[99], DEPTH_SENTINEL);
}

#[test]
fn depth_is_interpolated_between_the_vertices() {
    let red = Image::new(1, 1, RED).unwrap();
    let (mut frame, mut depth) = canvas();
    let sloped = Triangle3d {
        vertex_1: v3(-UNIT, -UNIT, 0),
        vertex_2: v3(SIX, -UNIT, 600),
        vertex_3: v3(-UNIT, SIX, 1200),
    };
    draw_triangle(&mut frame, sloped, &mut depth, &red, corner_uv());
    for y in 0..10u32 {
        for x in 0..10u32 {
            let expected =
                if covered(x, y) { (100 * x + 200 * y) as i64 } else { DEPTH_SENTINEL };
            assert_eq!(depth[(x + y * 10) as usize], expected);
        }
    }
}

#[test]
fn texture_is_sampled_at_the_interpolated_coordinate() {
    let a = Color { r: 10, g: 0, b: 0 };
    let b = Color { r: 20, g: 0, b: 0 };
    let c = Color { r: 30, g: 0, b: 0 };
    let d = Color { r: 40, g: 0, b: 0 };
    let mut texture = Image::new(2, 2, a).unwrap();
    texture.put_pixel(1, 0, b);
    texture.put_pixel(0, 1, c);
    texture.put_pixel(1, 1, d);
    let (mut frame, mut depth) = canvas();
    draw_triangle(&mut frame, front(0), &mut depth, &texture, corner_uv());
    for y in 0..10u32 {
        for x in 0..10u32 {
            let expected = if !covered(x, y) {
                BLACK
            } else {
                match (x >= 3, y >= 3) {
                    (false, false) => a,
                    (true, false) => b,
                    (false, true) => c,
                    (true, true) => d,
                }
            };
            assert_eq!(frame.get_pixel(x, y), Some(expected), "pixel ({}, {})", x, y);
        }
    }
}

#[test]
fn colour_is_scaled_by_the_intensity() {
    let texture = Image::new(1, 1, SAND).unwrap();
    let (mut frame, mut depth) = canvas();
    let tilted = Triangle3d {
        vertex_1: v3(-UNIT, -UNIT, 0),
        vertex_2: v3(SIX, -UNIT, 0),
        vertex_3: v3(-UNIT, SIX, 983040),
    };
    draw_triangle(&mut frame, tilted, &mut depth, &texture, corner_uv());
    assert_eq!(count(&frame, Color { r: 160, g: 80, b: 40 }), 28);
    assert_eq!(count(&frame, BLACK), 72);
}

#[test]
fn triangle_larger_than_the_frame_is_clamped_to_it() {
    let texture = Image::new(1, 1, SAND).unwrap();
    let (mut frame, mut depth) = canvas();
    let huge = Triangle3d {
        vertex_1: v3(-COORD_MAX, -COORD_MAX, 0),
        vertex_2: v3(COORD_MAX, -COORD_MAX, 0),
        vertex_3: v3(-COORD_MAX, COORD_MAX, 0),
    };
    draw_triangle(&mut frame, huge, &mut depth, &texture, corner_uv());
    // the clamped vertices are (0,0), (9,0) and (0,9)
    assert_eq!(count(&frame, SAND), 55);
}

fn one_face(triangle: Triangle3d, with_uv: bool) -> Mesh {
    let t = triangle;
    let positions = vec![
        t.vertex_1.x, t.vertex_1.y, t.vertex_1.z, t.vertex_2.x, t.vertex_2.y, t.vertex_2.z,
        t.vertex_3.x, t.vertex_3.y, t.vertex_3.z,
    ];
    let texcoords = if with_uv { vec![0, 0, UNIT, 0, 0, UNIT] } else { vec![] };
    Mesh::new(positions, texcoords, vec![0, 1, 2]).unwrap()
}

#[test]
fn render_of_one_triangle() {
    let texture = Image::new(4, 4, SAND).unwrap();
    let image = render(&one_face(front(0), true), &texture, 10, 10).unwrap();
    assert_eq!((image.width(), image.height()), (10, 10));
    for y in 0..10 {
        for x in 0..10 {
            // the frame is turned by half a turn at the end
            let expected = if covered(9 - x, 9 - y) { SAND } else { BLACK };
            assert_eq!(image.get_pixel(x, y), Some(expected), "pixel ({}, {})", x, y);
        }
    }
}

#[test]
fn render_of_a_back_face_is_black() {
    let texture = Image::new(4, 4, SAND).unwrap();
    let image = render(&one_face(back(0), true), &texture, 10, 10).unwrap();
    assert_eq!(count(&image, BLACK), 100);
}

#[test]
fn render_of_an_empty_mesh_is_black() {
    let mesh = Mesh::new(vec![], vec![], vec![]).unwrap();
    let texture = Image::new(4, 4, SAND).unwrap();
    let image = render(&mesh, &texture, 7, 3).unwrap();
    assert_eq!((image.width(), image.height()), (7, 3));
    assert_eq!(count(&image, BLACK), 21);
}

#[test]
fn render_keeps_the_face_with_the_greatest_depth() {
    let green = Image::new(1, 1, GREEN).unwrap();
    // two faces over the same pixels; their depths are 5 and 3
    let positions = vec![
        -UNIT, -UNIT, 5, SIX, -UNIT, 5, -UNIT, SIX, 5, //
        -UNIT, -UNIT, 3, SIX, -UNIT, 3, -UNIT, SIX, 3,
    ];
    let texcoords = vec![0; 12];
    let mesh = Mesh::new(positions, texcoords, vec![0, 1, 2, 3, 4, 5]).unwrap();
    assert_eq!(mesh.face_count(), 2);
    let image = render(&mesh, &green, 10, 10).unwrap();
    assert_eq!(count(&image, GREEN), 28);
}

#[test]
fn render_without_texture_coordinates_fails() {
    let texture = Image::new(4, 4, SAND).unwrap();
    let mesh = one_face(front(0), false);
    assert!(!mesh.has_texcoords());
    assert_eq!(render(&mesh, &texture, 10, 10).err(), Some(RenderError::MissingUv));
}

#[test]
fn render_of_a_frame_that_does_not_fit_fails() {
    let texture = Image::new(4, 4, SAND).unwrap();
    let mesh = one_face(front(0), true);
    assert_eq!(
        render(&mesh, &texture, u32::MAX, u32::MAX).err(),
        Some(RenderError::FrameTooLarge)
    );
}

#[test]
fn render_counts_the_depth_buffer_in_the_size_of_a_frame() {
    // three bytes per pixel would fit in a vector of a 64-bit machine, eight would not
    let texture = Image::new(4, 4, SAND).unwrap();
    let mesh = one_face(front(0), true);
    assert_eq!(
        render(&mesh, &texture, 1 << 31, 1 << 30).err(),
        Some(RenderError::FrameTooLarge)
    );
}

#[test]
fn render_reports_missing_coordinates_first() {
    let texture = Image::new(4, 4, SAND).unwrap();
    let mesh = one_face(front(0), false);
    assert_eq!(render(&mesh, &texture, u32::MAX, u32::MAX).err(), Some(RenderError::MissingUv));
}

#[test]
fn render_to_a_frame_without_pixels() {
    let texture = Image::new(4, 4, SAND).unwrap();
    let image = render(&one_face(front(0), true), &texture, 0, 0).unwrap();
    assert_eq!((image.width(), image.height()), (0, 0));
}

#[test]
fn mesh_hands_out_its_faces() {
    let mesh = one_face(front(7), true);
    assert_eq!(mesh.face_count(), 1);
    assert!(mesh.has_texcoords());
    assert_eq!(mesh.triangle(0), front(7));
    assert_eq!(mesh.texture_triangle(0), corner_uv());
}

#[test]
fn mesh_faces_may_share_vertices() {
    let positions = vec![0, 0, 0, 1, 1, 1, 2, 2, 2, 3, 3, 3];
    let mesh = Mesh::new(positions, vec![], vec![0, 1, 2, 2, 1, 3]).unwrap();
    assert_eq!(mesh.face_count(), 2);
    assert_eq!(
        mesh.triangle(1),
        Triangle3d { vertex_1: v3(2, 2, 2), vertex_2: v3(1, 1, 1), vertex_3: v3(3, 3, 3) }
    );
}

#[test]
fn mesh_with_ragged_positions_is_refused() {
    assert_eq!(Mesh::new(vec![0, 0], vec![], vec![]).err(), Some(MeshError::RaggedPositions));
}

#[test]
fn mesh_with_wrong_number_of_texture_coordinates_is_refused() {
    let r = Mesh::new(vec![0, 0, 0], vec![0, 0, 0, 0], vec![]);
    assert_eq!(r.err(), Some(MeshError::TexcoordCount));
    let r = Mesh::new(vec![0, 0, 0], vec![0], vec![]);
    assert_eq!(r.err(), Some(MeshError::TexcoordCount));
}

#[test]
fn mesh_with_ragged_indices_is_refused() {
    let r = Mesh::new(vec![0, 0, 0], vec![], vec![0, 0]);
    assert_eq!(r.err(), Some(MeshError::RaggedIndices));
}

#[test]
fn mesh_with_an_index_out_of_range_is_refused() {
    let r = Mesh::new(vec![0, 0, 0], vec![], vec![0, 0, 1]);
    assert_eq!(r.err(), Some(MeshError::IndexOutOfRange));
}

#[test]
fn mesh_with_a_coordinate_out_of_range_is_refused() {
    let r = Mesh::new(vec![0, COORD_MAX + 1, 0], vec![], vec![]);
    assert_eq!(r.err(), Some(MeshError::CoordinateOutOfRange));
    let r = Mesh::new(vec![0, 0, 0], vec![0, -COORD_MAX - 1], vec![]);
    assert_eq!(r.err(), Some(MeshError::CoordinateOutOfRange));
    assert!(Mesh::new(vec![COORD_MAX, -COORD_MAX, 0], vec![], vec![]).is_ok());
}

#[test]
fn mesh_faults_are_reported_in_order() {
    let r = Mesh::new(vec![0, 0], vec![0], vec![9]);
    assert_eq!(r.err(), Some(MeshError::RaggedPositions));
    let r = Mesh::new(vec![0, 0, i64::MAX], vec![], vec![9, 9, 9]);
    assert_eq!(r.err(), Some(MeshError::IndexOutOfRange));
}
