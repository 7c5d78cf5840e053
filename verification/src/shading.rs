//! What is computed for one triangle and one covered pixel: the light
//! intensity of the face, and the depth, texel and colour of a fragment.

use crate::arith::{
    lemma_floor_div_bounds, lemma_mul_bound, lemma_mul_bound_nonneg, lemma_trunc_div_bounds,
    trunc_div,
};
use crate::buffer::Color;
use crate::math::{
    cross, dot, Triangle3d, Vec2f, Vec3f, Vector3, Weights, WeightsView, COORD_MAX, UNIT,
};
use vstd::prelude::*;

verus! {

/// The intensity of a face that looks straight into the light: one, at the
/// scale `UNIT * UNIT` of a product of two coordinates.
pub const FULL_INTENSITY: i64 = 0x100_0000_0000;

/// The texture coordinates of the three vertices of a triangle, in vertex order.
#[derive(Clone, Copy, Debug, PartialEq, Eq, Structural)]
pub struct TriangleTexture {
    pub point_1: Vec2f,
    pub point_2: Vec2f,
    pub point_3: Vec2f,
}

impl TriangleTexture {
    /// Every coordinate has magnitude at most `COORD_MAX`.
    pub open spec fn in_range(self) -> bool {
        self.point_1.in_range() && self.point_2.in_range() && self.point_3.in_range()
    }
}

/// The direction of the light, `(0, 0, -1)`.
pub open spec fn light() -> Vector3 {
    Vector3 { x: 0, y: 0, z: -(UNIT as int) }
}

/// The direction of the light, `(0, 0, -1)`.
pub fn light_direction() -> (r: Vec3f)
    ensures
        r@ == light(),
{
    Vec3f { x: 0, y: 0, z: -UNIT }
}

/// The face normal `normalize(cross(v3 - v1, v2 - v1))`.
pub open spec fn face_normal(t: Triangle3d) -> Vector3 {
    t.vertex_3@.minus(t.vertex_1@).cross(t.vertex_2@.minus(t.vertex_1@)).normalized()
}

/// The light intensity of the face: the dot product of its normal and the
/// light direction, between `-FULL_INTENSITY` and `FULL_INTENSITY`.
pub open spec fn intensity_of(t: Triangle3d) -> int {
    face_normal(t).dot(light())
}

/// The face is not lit from the front: its intensity is negative, or it has
/// no normal because its three vertices are collinear in space.
pub open spec fn back_facing(t: Triangle3d) -> bool {
    face_normal(t) == Vector3::zero() || intensity_of(t) < 0
}

/// The light intensity of a face, or `None` for a back-facing one.
pub fn face_intensity(triangle: &Triangle3d) -> (r: Option<i64>)
    requires
        triangle.in_range(),
    ensures
        r is None <==> back_facing(*triangle),
        r matches Some(i) ==> i == intensity_of(*triangle) && 0 <= i <= FULL_INTENSITY,
{
    let e1: Vec3f = triangle.vertex_3.sub(triangle.vertex_1);
    let e2: Vec3f = triangle.vertex_2.sub(triangle.vertex_1);
    proof {
        let m: int = 2 * COORD_MAX;
        lemma_mul_bound(e1.y as int, e2.z as int, m, m);
        lemma_mul_bound(e1.z as int, e2.y as int, m, m);
        lemma_mul_bound(e1.z as int, e2.x as int, m, m);
        lemma_mul_bound(e1.x as int, e2.z as int, m, m);
        lemma_mul_bound(e1.x as int, e2.y as int, m, m);
        lemma_mul_bound(e1.y as int, e2.x as int, m, m);
    }
    let normal: Vec3f = cross(e1, e2).normalize();
    let light: Vec3f = light_direction();
    proof {
        lemma_mul_bound(normal.z as int, light.z as int, UNIT as int, UNIT as int);
        assert(normal.x * light.x == 0) by (nonlinear_arith)
            requires
                light.x == 0,
        ;
        assert(normal.y * light.y == 0) by (nonlinear_arith)
            requires
                light.y == 0,
        ;
    }
    let intensity: i64 = dot(normal, light);
    if (normal.x == 0 && normal.y == 0 && normal.z == 0) || intensity < 0 {
        None
    } else {
        Some(intensity)
    }
}

/// The value `w1 * a + w2 * b + w3 * c` of the weighted sum, before the
/// division by the common denominator of the weights.
pub open spec fn weighted_sum(w: WeightsView, a: int, b: int, c: int) -> int {
    w.w1 * a + w.w2 * b + w.w3 * c
}

/// The weighted mean of three values, rounded toward zero.
pub open spec fn interpolate(w: WeightsView, a: int, b: int, c: int) -> int {
    trunc_div(weighted_sum(w, a, b, c), w.denom)
}

/// The depth of a fragment: the weighted mean of the three vertex depths.
pub open spec fn depth_at(t: Triangle3d, w: WeightsView) -> int {
    interpolate(w, t.vertex_1.z as int, t.vertex_2.z as int, t.vertex_3.z as int)
}

/// The texel index along an axis of `dim` texels: the weighted mean of the
/// three texture coordinates times `dim`, rounded toward zero and clamped
/// into `[0, dim - 1]`.
pub open spec fn texel_axis(w: WeightsView, a: int, b: int, c: int, dim: int) -> int {
    let raw = trunc_div(weighted_sum(w, a, b, c) * dim, w.denom * UNIT);
    if raw < 0 {
        0
    } else if raw > dim - 1 {
        dim - 1
    } else {
        raw
    }
}

/// A colour channel under a light intensity: `intensity * channel` rounded
/// to the nearest integer, halves rounding up, and clamped into `[0, 255]`.
pub open spec fn shade_channel(intensity: int, channel: int) -> int {
    // the divisor is 2 * FULL_INTENSITY
    let raw = (2 * (intensity * channel) + FULL_INTENSITY) / 0x200_0000_0000;
    if raw < 0 {
        0
    } else if raw > 255 {
        255
    } else {
        raw
    }
}

/// A colour under a light intensity, channel by channel.
pub open spec fn shade(intensity: int, c: Color) -> Color {
    Color {
        r: shade_channel(intensity, c.r as int) as u8,
        g: shade_channel(intensity, c.g as int) as u8,
        b: shade_channel(intensity, c.b as int) as u8,
    }
}

/// A weighted sum with non-negative weights is bounded by the denominator
/// times the bound of the values.
pub proof fn lemma_weighted_sum_bound(w: WeightsView, a: int, b: int, c: int, bound: int)
    requires
        w.wf(),
        w.inside(),
        -bound <= a <= bound,
        -bound <= b <= bound,
        -bound <= c <= bound,
    ensures
        -(w.denom * bound) <= weighted_sum(w, a, b, c) <= w.denom * bound,
{
    lemma_mul_bound(w.w1, a, w.w1, bound);
    lemma_mul_bound(w.w2, b, w.w2, bound);
    lemma_mul_bound(w.w3, c, w.w3, bound);
    assert(w.denom * bound == w.w1 * bound + w.w2 * bound + w.w3 * bound) by (nonlinear_arith)
        requires
            w.w1 + w.w2 + w.w3 == w.denom,
    ;
}

/// The weighted mean of three values within `bound` lies within `bound`.
pub proof fn lemma_interpolate_bound(w: WeightsView, a: int, b: int, c: int, bound: int)
    requires
        w.wf(),
        w.inside(),
        -bound <= a <= bound,
        -bound <= b <= bound,
        -bound <= c <= bound,
    ensures
        -bound <= interpolate(w, a, b, c) <= bound,
{
    lemma_weighted_sum_bound(w, a, b, c, bound);
    let s = weighted_sum(w, a, b, c);
    let q = trunc_div(s, w.denom);
    lemma_trunc_div_bounds(s, w.denom);
    assert(-bound <= q <= bound) by (nonlinear_arith)
        requires
            w.denom > 0,
            -(w.denom * bound) <= s <= w.denom * bound,
            s >= 0 ==> 0 <= q * w.denom <= s,
            s <= 0 ==> s <= q * w.denom <= 0,
    ;
}

impl Weights {
    /// The weighted mean of three coordinates, rounded toward zero.
    pub fn interpolate(&self, a: i64, b: i64, c: i64) -> (r: i64)
        requires
            self@.wf(),
            self@.inside(),
            self@.denom <= 0x2_0000_0000_0000_0000,
            -COORD_MAX <= a <= COORD_MAX,
            -COORD_MAX <= b <= COORD_MAX,
            -COORD_MAX <= c <= COORD_MAX,
        ensures
            r == interpolate(self@, a as int, b as int, c as int),
            -COORD_MAX <= r <= COORD_MAX,
    {
        proof {
            lemma_mul_bound(self.w1 as int, a as int, 0x2_0000_0000_0000_0000, COORD_MAX as int);
            lemma_mul_bound(self.w2 as int, b as int, 0x2_0000_0000_0000_0000, COORD_MAX as int);
            lemma_mul_bound(self.w3 as int, c as int, 0x2_0000_0000_0000_0000, COORD_MAX as int);
            lemma_interpolate_bound(self@, a as int, b as int, c as int, COORD_MAX as int);
        }
        let sum: i128 = self.w1 * a as i128 + self.w2 * b as i128 + self.w3 * c as i128;
        (sum / self.denom) as i64
    }

    /// The texel index along an axis of `dim` texels for the weighted mean of
    /// three texture coordinates.
    pub fn texel(&self, a: i64, b: i64, c: i64, dim: u32) -> (r: u32)
        requires
            self@.wf(),
            self@.inside(),
            self@.denom <= 0x2_0000_0000_0000_0000,
            -COORD_MAX <= a <= COORD_MAX,
            -COORD_MAX <= b <= COORD_MAX,
            -COORD_MAX <= c <= COORD_MAX,
            dim > 0,
        ensures
            r == texel_axis(self@, a as int, b as int, c as int, dim as int),
            r < dim,
    {
        proof {
            lemma_mul_bound(self.w1 as int, a as int, 0x2_0000_0000_0000_0000, COORD_MAX as int);
            lemma_mul_bound(self.w2 as int, b as int, 0x2_0000_0000_0000_0000, COORD_MAX as int);
            lemma_mul_bound(self.w3 as int, c as int, 0x2_0000_0000_0000_0000, COORD_MAX as int);
            lemma_weighted_sum_bound(self@, a as int, b as int, c as int, COORD_MAX as int);
            lemma_mul_bound_nonneg(
                self.denom as int,
                COORD_MAX as int,
                0x2_0000_0000_0000_0000,
                COORD_MAX as int,
            );
            lemma_mul_bound(
                weighted_sum(self@, a as int, b as int, c as int),
                dim as int,
                0x2_0000_0000_0000_0000 * COORD_MAX,
                0xffff_ffff,
            );
            lemma_mul_bound_nonneg(
                self.denom as int,
                UNIT as int,
                0x2_0000_0000_0000_0000,
                UNIT as int,
            );
            assert(self.denom * UNIT > 0) by (nonlinear_arith)
                requires
                    self.denom > 0,
            ;
        }
        let sum: i128 = self.w1 * a as i128 + self.w2 * b as i128 + self.w3 * c as i128;
        let scaled: i128 = sum * dim as i128;
        let raw: i128 = scaled / (self.denom * UNIT as i128);
        if raw < 0 {
            0
        } else if raw > dim as i128 - 1 {
            dim - 1
        } else {
            raw as u32
        }
    }
}

/// One colour channel under a light intensity.
pub fn shade_one(intensity: i64, channel: u8) -> (r: u8)
    ensures
        r == shade_channel(intensity as int, channel as int),
{
    proof {
        lemma_mul_bound(intensity as int, channel as int, 0x8000_0000_0000_0000, 255);
        lemma_floor_div_bounds(2 * (intensity * channel) + FULL_INTENSITY, 2 * FULL_INTENSITY);
    }
    let product: i128 = intensity as i128 * channel as i128;
    let doubled: i128 = 2 * product + FULL_INTENSITY as i128;
    if doubled < 0 {
        proof {
            let q = (2 * (intensity * channel) + FULL_INTENSITY) / (2 * FULL_INTENSITY as int);
            assert(q < 0) by (nonlinear_arith)
                requires
                    q * (2 * FULL_INTENSITY) <= 2 * (intensity * channel) + FULL_INTENSITY,
                    2 * (intensity * channel) + FULL_INTENSITY < 0,
            ;
        }
        return 0;
    }
    let raw: i128 = doubled / (2 * FULL_INTENSITY as i128);
    if raw > 255 {
        255
    } else {
        raw as u8
    }
}

/// A colour under a light intensity.
pub fn shade_color(intensity: i64, c: Color) -> (r: Color)
    ensures
        r == shade(intensity as int, c),
{
    Color {
        r: shade_one(intensity, c.r),
        g: shade_one(intensity, c.g),
        b: shade_one(intensity, c.b),
    }
}

/// Under full intensity a colour keeps its value, and under none it turns black.
pub proof fn lemma_shade_extremes(c: Color)
    ensures
        shade(FULL_INTENSITY as int, c) == c,
        shade(0, c) == (Color { r: 0, g: 0, b: 0 }),
{
    lemma_shade_channel_extremes(c.r as int);
    lemma_shade_channel_extremes(c.g as int);
    lemma_shade_channel_extremes(c.b as int);
}

proof fn lemma_shade_channel_extremes(channel: int)
    requires
        0 <= channel <= 255,
    ensures
        shade_channel(FULL_INTENSITY as int, channel) == channel,
        shade_channel(0, channel) == 0,
{
    assert(0 * channel == 0) by (nonlinear_arith);
    crate::arith::lemma_floor_div_unique(FULL_INTENSITY as int, 2 * FULL_INTENSITY, 0);
    let doubled = 2 * (FULL_INTENSITY * channel) + FULL_INTENSITY;
    assert(channel * (2 * FULL_INTENSITY) <= doubled < (channel + 1) * (2 * FULL_INTENSITY))
        by (nonlinear_arith)
        requires
            doubled == 2 * (FULL_INTENSITY * channel) + FULL_INTENSITY,
    ;
    crate::arith::lemma_floor_div_unique(
        2 * (FULL_INTENSITY * channel) + FULL_INTENSITY,
        2 * FULL_INTENSITY,
        channel,
    );
}

} // verus!
