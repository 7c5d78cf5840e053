//! Screen projection, bounding boxes and a swap of two integers.

use crate::arith::{lemma_floor_div_bounds, lemma_floor_div_unique, lemma_mul_bound};
use crate::math::{find_max, find_min, max3, min3, Triangle2d, Vec2i, Vec3f, UNIT};
use vstd::prelude::*;

verus! {

/// The inclusive pixel rectangle that encloses a triangle.
#[derive(Clone, Copy, Debug, PartialEq, Eq, Structural)]
pub struct BoundingBox {
    pub min_values: Vec2i,
    pub max_values: Vec2i,
}

impl BoundingBox {
    /// Whether the point `(px, py)` lies in the rectangle, borders included.
    pub open spec fn contains(self, px: int, py: int) -> bool {
        &&& self.min_values.x <= px <= self.max_values.x
        &&& self.min_values.y <= py <= self.max_values.y
    }
}

/// The rectangle spanned by the componentwise minimum and maximum of the three points.
pub open spec fn bounding_box_of(t: Triangle2d) -> BoundingBox {
    BoundingBox {
        min_values: Vec2i {
            x: min3(t.point_1.x as int, t.point_2.x as int, t.point_3.x as int) as i32,
            y: min3(t.point_1.y as int, t.point_2.y as int, t.point_3.y as int) as i32,
        },
        max_values: Vec2i {
            x: max3(t.point_1.x as int, t.point_2.x as int, t.point_3.x as int) as i32,
            y: max3(t.point_1.y as int, t.point_2.y as int, t.point_3.y as int) as i32,
        },
    }
}

/// Find the bounding box of a triangle of screen points.
pub fn find_bounding_box(triangle: &Triangle2d) -> (r: BoundingBox)
    ensures
        r == bounding_box_of(*triangle),
        r.contains(triangle.point_1.x as int, triangle.point_1.y as int),
        r.contains(triangle.point_2.x as int, triangle.point_2.y as int),
        r.contains(triangle.point_3.x as int, triangle.point_3.y as int),
{
    BoundingBox { min_values: find_min(triangle), max_values: find_max(triangle) }
}

/// The last pixel index along an axis of `dim` pixels that a screen point can
/// name: `dim - 1`, but never below zero nor above `i32::MAX`.
pub open spec fn last_pixel(dim: int) -> int {
    if dim <= 0 {
        0
    } else if dim - 1 > i32::MAX {
        i32::MAX as int
    } else {
        dim - 1
    }
}

/// The coordinate `c` on an axis of `dim` pixels, before clamping:
/// `floor((c + 1) * dim / 2)` in real terms.  The divisor is `2 * UNIT`.
pub open spec fn scaled_axis(c: int, dim: int) -> int {
    ((c + UNIT) * dim) / 0x20_0000
}

/// The value `raw` clamped into `[0, last]`.
pub open spec fn clamp_pixel(raw: int, last: int) -> int {
    if raw < 0 {
        0
    } else if raw > last {
        last
    } else {
        raw
    }
}

/// The pixel index of the coordinate `c` along an axis of `dim` pixels:
/// [`scaled_axis`] clamped into `[0, last_pixel(dim)]`.
pub open spec fn screen_axis(c: int, dim: int) -> int {
    clamp_pixel(scaled_axis(c, dim), last_pixel(dim))
}

/// The screen point of a vertex in normalized device coordinates, in a frame
/// of `width` by `height` pixels.
pub open spec fn screen_point(v: Vec3f, width: int, height: int) -> Vec2i {
    Vec2i { x: screen_axis(v.x as int, width) as i32, y: screen_axis(v.y as int, height) as i32 }
}

/// One axis of [`find_screen_coordinates`].
fn project_axis(c: i64, dim: u32) -> (r: i32)
    ensures
        r == screen_axis(c as int, dim as int),
        0 <= r <= last_pixel(dim as int),
{
    let last: i128 = if dim == 0 {
        0
    } else if dim - 1 > 0x7fff_ffff {
        0x7fff_ffff
    } else {
        (dim - 1) as i128
    };
    let shifted: i128 = c as i128 + UNIT as i128;
    proof {
        lemma_mul_bound(shifted as int, dim as int, 0x8000_0000_0010_0000, 0xffff_ffff);
        lemma_floor_div_bounds(shifted * dim, 2 * UNIT);
    }
    let scaled: i128 = shifted * dim as i128;
    if scaled < 0 {
        proof {
            let q = (shifted * dim) / (2 * UNIT as int);
            assert(q < 0) by (nonlinear_arith)
                requires
                    q * (2 * UNIT) <= shifted * dim,
                    shifted * dim < 0,
            ;
        }
        return 0;
    }
    let raw: i128 = scaled / (2 * UNIT as i128);
    if raw > last {
        last as i32
    } else {
        raw as i32
    }
}

/// Converts a vertex in normalized device coordinates to a screen point,
/// clamped on both axes into the frame.
pub fn find_screen_coordinates(vertex: &Vec3f, width: u32, height: u32) -> (r: Vec2i)
    ensures
        r == screen_point(*vertex, width as int, height as int),
        0 <= r.x <= last_pixel(width as int),
        0 <= r.y <= last_pixel(height as int),
{
    let x: i32 = project_axis(vertex.x, width);
    let y: i32 = project_axis(vertex.y, height);
    Vec2i { x, y }
}

/// A vertex at `(-1, -1, z)` falls on pixel `(0, 0)` whatever the frame size.
pub proof fn lemma_lower_corner_projection(z: i64, width: u32, height: u32)
    ensures
        screen_point(Vec3f { x: (-UNIT) as i64, y: (-UNIT) as i64, z }, width as int, height as int)
            == (Vec2i { x: 0, y: 0 }),
{
    assert((-UNIT + UNIT) * (width as int) == 0) by (nonlinear_arith);
    assert((-UNIT + UNIT) * (height as int) == 0) by (nonlinear_arith);
}

/// A vertex at `(1, 1, z)` falls on the last pixel `(width - 1, height - 1)`
/// of a frame that has at least one pixel and whose last pixel a screen
/// point can name.
pub proof fn lemma_upper_corner_projection(z: i64, width: u32, height: u32)
    requires
        1 <= width <= 0x8000_0000,
        1 <= height <= 0x8000_0000,
    ensures
        screen_point(Vec3f { x: UNIT, y: UNIT, z }, width as int, height as int) == (Vec2i {
            x: (width - 1) as i32,
            y: (height - 1) as i32,
        }),
{
    lemma_full_axis(width as int);
    lemma_full_axis(height as int);
}

/// The coordinate one maps to the pixel index `dim` before clamping.
proof fn lemma_full_axis(dim: int)
    requires
        dim >= 0,
    ensures
        ((UNIT + UNIT) * dim) / (2 * UNIT) == dim,
{
    assert(dim * (2 * UNIT) <= (UNIT + UNIT) * dim < (dim + 1) * (2 * UNIT)) by (nonlinear_arith)
        requires
            dim >= 0,
    ;
    lemma_floor_div_unique((UNIT + UNIT) * dim, 2 * UNIT, dim);
}

/// Exchanges the two integers.
pub fn swap(x: &mut i32, y: &mut i32)
    ensures
        *final(x) == *old(y),
        *final(y) == *old(x),
{
    let temp: i32 = *x;
    *x = *y;
    *y = temp;
}

} // verus!
