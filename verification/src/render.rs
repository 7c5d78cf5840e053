//! The shaded pipeline: one triangle onto the frame and depth buffers, and a
//! whole mesh onto a fresh frame.
//!
//! A larger depth wins: a fragment replaces a pixel only where its depth is
//! strictly greater than the depth stored for that pixel.

use crate::buffer::{
    image_fits, lemma_index_in_range, lemma_index_injective, lemma_index_split, Color, Image, ImageView,
};
use crate::line::draw_point;
use crate::math::{
    barycentric, degenerate, lemma_inside_within_bounds, weights_at, Triangle2d, Triangle3d, Vec2i,
    Weights, WeightsView, COORD_MAX,
};
use crate::mesh::{Mesh, MeshView};
use crate::shading::{
    back_facing, depth_at, face_intensity, intensity_of, lemma_interpolate_bound, shade,
    shade_color, texel_axis, TriangleTexture,
};
use crate::utility::{find_bounding_box, find_screen_coordinates, screen_point, BoundingBox};
use vstd::prelude::*;

verus! {

/// The depth of a pixel that no fragment has reached: below every depth that
/// a triangle with coordinates in range can have.
pub const DEPTH_SENTINEL: i64 = i64::MIN;

/// A frame together with its depth buffer.
pub struct Canvas {
    pub frame: ImageView,
    pub depth: Seq<i64>,
}

impl Canvas {
    /// The frame has one pixel and one depth per position, under the same index.
    pub open spec fn wf(self) -> bool {
        self.frame.wf() && self.depth.len() == self.frame.pixels.len()
    }

    /// The depth stored for pixel `(x, y)`.
    pub open spec fn depth_of(self, x: int, y: int) -> i64 {
        self.depth[self.frame.index(x, y)]
    }
}

/// The triangle in screen space, for a frame of `width` by `height` pixels.
pub open spec fn project_triangle(t: Triangle3d, width: int, height: int) -> Triangle2d {
    Triangle2d {
        point_1: screen_point(t.vertex_1, width, height),
        point_2: screen_point(t.vertex_2, width, height),
        point_3: screen_point(t.vertex_3, width, height),
    }
}

/// The triangle leaves the canvas untouched: it is back-facing, or
/// degenerate on the screen, or there is no texel to sample.
pub open spec fn skipped(t: Triangle3d, texture: ImageView, width: int, height: int) -> bool {
    ||| back_facing(t)
    ||| degenerate(project_triangle(t, width, height))
    ||| texture.width == 0
    ||| texture.height == 0
}

/// The barycentric weights of pixel `(x, y)` in the projected triangle.
pub open spec fn fragment_weights(t: Triangle3d, width: int, height: int, x: int, y: int)
    -> WeightsView {
    weights_at(project_triangle(t, width, height), x, y)
}

/// The texel that the fragment at `(x, y)` samples.
pub open spec fn fragment_texel(
    uv: TriangleTexture,
    texture: ImageView,
    w: WeightsView,
) -> Color {
    texture.pixel(
        texel_axis(
            w,
            uv.point_1.x as int,
            uv.point_2.x as int,
            uv.point_3.x as int,
            texture.width as int,
        ),
        texel_axis(
            w,
            uv.point_1.y as int,
            uv.point_2.y as int,
            uv.point_3.y as int,
            texture.height as int,
        ),
    )
}

/// The colour of the fragment at `(x, y)`: the sampled texel under the light
/// intensity of the face.
pub open spec fn fragment_color(
    t: Triangle3d,
    uv: TriangleTexture,
    texture: ImageView,
    width: int,
    height: int,
    x: int,
    y: int,
) -> Color {
    shade(intensity_of(t), fragment_texel(uv, texture, fragment_weights(t, width, height, x, y)))
}

/// The depth of the fragment at `(x, y)`.
pub open spec fn fragment_depth(t: Triangle3d, width: int, height: int, x: int, y: int) -> int {
    depth_at(t, fragment_weights(t, width, height, x, y))
}

/// The triangle replaces pixel `(x, y)`: it is drawn at all, the pixel lies
/// inside it, and its depth there is strictly greater than the stored one.
pub open spec fn wins(
    c: Canvas,
    t: Triangle3d,
    texture: ImageView,
    x: int,
    y: int,
) -> bool {
    let width = c.frame.width as int;
    let height = c.frame.height as int;
    &&& !skipped(t, texture, width, height)
    &&& fragment_weights(t, width, height, x, y).inside()
    &&& fragment_depth(t, width, height, x, y) > c.depth_of(x, y)
}

/// The colour of pixel `(x, y)` after the triangle has been drawn.
pub open spec fn pixel_after(
    c: Canvas,
    t: Triangle3d,
    uv: TriangleTexture,
    texture: ImageView,
    x: int,
    y: int,
) -> Color {
    if wins(c, t, texture, x, y) {
        fragment_color(t, uv, texture, c.frame.width as int, c.frame.height as int, x, y)
    } else {
        c.frame.pixel(x, y)
    }
}

/// The depth of pixel `(x, y)` after the triangle has been drawn.
pub open spec fn depth_after(c: Canvas, t: Triangle3d, texture: ImageView, x: int, y: int) -> i64 {
    if wins(c, t, texture, x, y) {
        fragment_depth(t, c.frame.width as int, c.frame.height as int, x, y) as i64
    } else {
        c.depth_of(x, y)
    }
}

/// The canvas after the triangle has been drawn onto it.
pub open spec fn drawn(c: Canvas, t: Triangle3d, uv: TriangleTexture, texture: ImageView)
    -> Canvas {
    let width = c.frame.width as int;
    Canvas {
        frame: ImageView {
            width: c.frame.width,
            height: c.frame.height,
            pixels: Seq::new(
                c.frame.pixels.len(),
                |i: int| pixel_after(c, t, uv, texture, i % width, i / width),
            ),
        },
        depth: Seq::new(
            c.depth.len(),
            |i: int| depth_after(c, t, texture, i % width, i / width),
        ),
    }
}

/// Draws the fragment of one triangle at one pixel of the frame.
fn draw_fragment(
    buf: &mut Image,
    z_buffer: &mut Vec<i64>,
    x: u32,
    y: u32,
    triangle: &Triangle3d,
    projected: &Triangle2d,
    intensity: i64,
    texture: &Image,
    triangle_texture: &TriangleTexture,
)
    requires
        old(buf)@.contains(x as int, y as int),
        x <= i32::MAX,
        y <= i32::MAX,
        (Canvas { frame: old(buf)@, depth: old(z_buffer)@ }).wf(),
        triangle.in_range(),
        triangle_texture.in_range(),
        *projected == project_triangle(
            *triangle,
            old(buf)@.width as int,
            old(buf)@.height as int,
        ),
        !back_facing(*triangle),
        texture@.width > 0,
        texture@.height > 0,
        intensity == intensity_of(*triangle),
    ensures
        ({
            let c = Canvas { frame: old(buf)@, depth: old(z_buffer)@ };
            let won = wins(c, *triangle, texture@, x as int, y as int);
            &&& final(buf)@ == (if won {
                c.frame.with_pixel(
                    x as int,
                    y as int,
                    pixel_after(c, *triangle, *triangle_texture, texture@, x as int, y as int),
                )
            } else {
                c.frame
            })
            &&& final(z_buffer)@ == (if won {
                c.depth.update(
                    c.frame.index(x as int, y as int),
                    depth_after(c, *triangle, texture@, x as int, y as int),
                )
            } else {
                c.depth
            })
            &&& (Canvas { frame: final(buf)@, depth: final(z_buffer)@ }).wf()
        }),
{
    let w: u32 = buf.width();
    let weights: Weights = barycentric(projected, Vec2i { x: x as i32, y: y as i32 });
    if !weights.is_inside() {
        return ;
    }
    proof {
        lemma_index_in_range(buf@.width as int, buf@.height as int, x as int, y as int);
        lemma_interpolate_bound(
            weights@,
            triangle.vertex_1.z as int,
            triangle.vertex_2.z as int,
            triangle.vertex_3.z as int,
            COORD_MAX as int,
        );
    }
    let depth: i64 = weights.interpolate(
        triangle.vertex_1.z,
        triangle.vertex_2.z,
        triangle.vertex_3.z,
    );
    let len: usize = z_buffer.len();
    assert(x + y * w < len);
    let row: usize = y as usize * w as usize;
    let index: usize = x as usize + row;
    if z_buffer[index] < depth {
        let tx: u32 = weights.texel(
            triangle_texture.point_1.x,
            triangle_texture.point_2.x,
            triangle_texture.point_3.x,
            texture.width(),
        );
        let ty: u32 = weights.texel(
            triangle_texture.point_1.y,
            triangle_texture.point_2.y,
            triangle_texture.point_3.y,
            texture.height(),
        );
        match texture.get_pixel(tx, ty) {
            Some(texel) => {
                z_buffer.set(index, depth);
                buf.put_pixel(x, y, shade_color(intensity, texel));
            },
            None => {},
        }
    }
}

/// Whether the scan of the bounding box has already visited pixel `(qx, qy)`
/// when it stands at column `x`, row `y`.
pub open spec fn visited(bb: BoundingBox, x: int, y: int, qx: int, qy: int) -> bool {
    bb.min_values.y <= qy <= bb.max_values.y && ((bb.min_values.x <= qx < x) || (qx == x
        && qy < y))
}

/// The canvas `cur` agrees with the drawn triangle on the visited pixels and
/// with the canvas `c` on the others.
pub open spec fn scanned(
    cur: Canvas,
    c: Canvas,
    t: Triangle3d,
    uv: TriangleTexture,
    texture: ImageView,
    bb: BoundingBox,
    x: int,
    y: int,
) -> bool {
    &&& cur.frame.width == c.frame.width
    &&& cur.frame.height == c.frame.height
    &&& cur.wf()
    &&& forall|qx: int, qy: int|
        c.frame.contains(qx, qy) ==> #[trigger] cur.frame.pixel(qx, qy) == (if visited(
            bb,
            x,
            y,
            qx,
            qy,
        ) {
            pixel_after(c, t, uv, texture, qx, qy)
        } else {
            c.frame.pixel(qx, qy)
        })
    &&& forall|qx: int, qy: int|
        c.frame.contains(qx, qy) ==> #[trigger] cur.depth_of(qx, qy) == (if visited(
            bb,
            x,
            y,
            qx,
            qy,
        ) {
            depth_after(c, t, texture, qx, qy)
        } else {
            c.depth_of(qx, qy)
        })
}

/// One fragment moves the scan one pixel forward.
proof fn lemma_scan_step(
    before: Canvas,
    after: Canvas,
    c: Canvas,
    t: Triangle3d,
    uv: TriangleTexture,
    texture: ImageView,
    bb: BoundingBox,
    x: int,
    y: int,
)
    requires
        c.wf(),
        scanned(before, c, t, uv, texture, bb, x, y),
        c.frame.contains(x, y),
        bb.min_values.y <= y <= bb.max_values.y,
        bb.min_values.x <= x,
        after.frame == (if wins(before, t, texture, x, y) {
            before.frame.with_pixel(x, y, pixel_after(before, t, uv, texture, x, y))
        } else {
            before.frame
        }),
        after.depth == (if wins(before, t, texture, x, y) {
            before.depth.update(before.frame.index(x, y), depth_after(before, t, texture, x, y))
        } else {
            before.depth
        }),
        after.wf(),
    ensures
        scanned(after, c, t, uv, texture, bb, x, y + 1),
{
    let width = c.frame.width as int;
    let height = c.frame.height as int;
    lemma_index_in_range(width, height, x, y);
    assert(before.frame.pixel(x, y) == c.frame.pixel(x, y));
    assert(before.depth_of(x, y) == c.depth_of(x, y));
    assert(wins(before, t, texture, x, y) == wins(c, t, texture, x, y));
    assert forall|qx: int, qy: int| c.frame.contains(qx, qy) implies #[trigger] after.frame.pixel(
        qx,
        qy,
    ) == (if visited(bb, x, y + 1, qx, qy) {
        pixel_after(c, t, uv, texture, qx, qy)
    } else {
        c.frame.pixel(qx, qy)
    }) by {
        lemma_index_in_range(width, height, qx, qy);
        if qx != x || qy != y {
            if before.frame.index(qx, qy) == before.frame.index(x, y) {
                lemma_index_injective(width, qx, qy, x, y);
            }
            assert(after.frame.pixel(qx, qy) == before.frame.pixel(qx, qy));
        }
    }
    assert forall|qx: int, qy: int| c.frame.contains(qx, qy) implies #[trigger] after.depth_of(
        qx,
        qy,
    ) == (if visited(bb, x, y + 1, qx, qy) {
        depth_after(c, t, texture, qx, qy)
    } else {
        c.depth_of(qx, qy)
    }) by {
        lemma_index_in_range(width, height, qx, qy);
        if qx != x || qy != y {
            if before.frame.index(qx, qy) == before.frame.index(x, y) {
                lemma_index_injective(width, qx, qy, x, y);
            }
            assert(after.depth_of(qx, qy) == before.depth_of(qx, qy));
        }
    }
}

/// A canvas that agrees with the drawn triangle on the whole bounding box,
/// and with the old canvas elsewhere, is the drawn canvas.
proof fn lemma_scan_done(
    cur: Canvas,
    c: Canvas,
    t: Triangle3d,
    uv: TriangleTexture,
    texture: ImageView,
    bb: BoundingBox,
)
    requires
        c.wf(),
        bb == crate::utility::bounding_box_of(
            project_triangle(t, c.frame.width as int, c.frame.height as int),
        ),
        scanned(cur, c, t, uv, texture, bb, bb.max_values.x + 1, bb.min_values.y as int),
    ensures
        cur == drawn(c, t, uv, texture),
{
    let width = c.frame.width as int;
    let height = c.frame.height as int;
    let goal = drawn(c, t, uv, texture);
    let projected = project_triangle(t, width, height);
    assert forall|i: int| 0 <= i < cur.frame.pixels.len() implies #[trigger] cur.frame.pixels[i]
        == goal.frame.pixels[i] by {
        lemma_index_split(width, height, i);
        let qx = i % width;
        let qy = i / width;
        assert(c.frame.contains(qx, qy));
        assert(cur.frame.pixel(qx, qy) == cur.frame.pixels[i]);
        if !visited(bb, bb.max_values.x + 1, bb.min_values.y as int, qx, qy) {
            if weights_at(projected, qx, qy).inside() {
                lemma_inside_within_bounds(projected, qx, qy);
            }
            assert(!wins(c, t, texture, qx, qy));
        }
    }
    assert forall|i: int| 0 <= i < cur.depth.len() implies #[trigger] cur.depth[i]
        == goal.depth[i] by {
        lemma_index_split(width, height, i);
        let qx = i % width;
        let qy = i / width;
        assert(c.frame.contains(qx, qy));
        assert(cur.depth_of(qx, qy) == cur.depth[i]);
        if !visited(bb, bb.max_values.x + 1, bb.min_values.y as int, qx, qy) {
            if weights_at(projected, qx, qy).inside() {
                lemma_inside_within_bounds(projected, qx, qy);
            }
            assert(!wins(c, t, texture, qx, qy));
        }
    }
    assert(cur.frame.pixels.len() == goal.frame.pixels.len());
    assert(cur.depth.len() == goal.depth.len());
    assert(cur.frame.pixels =~= goal.frame.pixels);
    assert(cur.depth =~= goal.depth);
}

/// A triangle that is back-facing, or collinear on the screen, or has no
/// texel to sample, draws no pixel: the canvas stays as it is.  So does a
/// canvas without pixels.
pub proof fn lemma_nothing_drawn(c: Canvas, t: Triangle3d, uv: TriangleTexture, texture: ImageView)
    requires
        c.wf(),
        skipped(t, texture, c.frame.width as int, c.frame.height as int) || c.frame.pixels.len()
            == 0,
    ensures
        drawn(c, t, uv, texture) == c,
{
    let goal = drawn(c, t, uv, texture);
    assert(goal.frame.pixels =~= c.frame.pixels) by {
        assert forall|i: int| 0 <= i < c.frame.pixels.len() implies goal.frame.pixels[i]
            == c.frame.pixels[i] by {
            lemma_index_split(c.frame.width as int, c.frame.height as int, i);
        }
    }
    assert(goal.depth =~= c.depth) by {
        assert forall|i: int| 0 <= i < c.depth.len() implies goal.depth[i] == c.depth[i] by {
            lemma_index_split(c.frame.width as int, c.frame.height as int, i);
        }
    }
}

/// What drawing a triangle does to one pixel of the frame: the pixel takes
/// the colour and the depth of the fragment where the triangle wins, and
/// keeps its own where it does not.
pub proof fn lemma_drawn_pixel(
    c: Canvas,
    t: Triangle3d,
    uv: TriangleTexture,
    texture: ImageView,
    x: int,
    y: int,
)
    requires
        c.wf(),
        c.frame.contains(x, y),
    ensures
        drawn(c, t, uv, texture).wf(),
        drawn(c, t, uv, texture).frame.pixel(x, y) == pixel_after(c, t, uv, texture, x, y),
        drawn(c, t, uv, texture).depth_of(x, y) == depth_after(c, t, texture, x, y),
{
    let width = c.frame.width as int;
    let height = c.frame.height as int;
    lemma_index_in_range(width, height, x, y);
    let i = x + y * width;
    lemma_index_split(width, height, i);
    lemma_index_injective(width, x, y, i % width, i / width);
}

/// On a pixel that no fragment has reached, every triangle that is drawn at
/// all and covers the pixel wins: the pixel takes the colour of the fragment.
pub proof fn lemma_fresh_pixel_is_filled(
    c: Canvas,
    t: Triangle3d,
    uv: TriangleTexture,
    texture: ImageView,
    x: int,
    y: int,
)
    requires
        c.wf(),
        t.in_range(),
        c.frame.contains(x, y),
        c.depth_of(x, y) == DEPTH_SENTINEL,
        !skipped(t, texture, c.frame.width as int, c.frame.height as int),
        fragment_weights(t, c.frame.width as int, c.frame.height as int, x, y).inside(),
    ensures
        drawn(c, t, uv, texture).frame.pixel(x, y) == fragment_color(
            t,
            uv,
            texture,
            c.frame.width as int,
            c.frame.height as int,
            x,
            y,
        ),
        drawn(c, t, uv, texture).depth_of(x, y) == fragment_depth(
            t,
            c.frame.width as int,
            c.frame.height as int,
            x,
            y,
        ),
{
    let width = c.frame.width as int;
    let height = c.frame.height as int;
    lemma_drawn_pixel(c, t, uv, texture, x, y);
    crate::math::lemma_weights_sum_to_one(project_triangle(t, width, height), x, y);
    lemma_interpolate_bound(
        fragment_weights(t, width, height, x, y),
        t.vertex_1.z as int,
        t.vertex_2.z as int,
        t.vertex_3.z as int,
        COORD_MAX as int,
    );
}

/// Drawing a triangle never lowers a stored depth.
pub proof fn lemma_depth_never_decreases(
    c: Canvas,
    t: Triangle3d,
    uv: TriangleTexture,
    texture: ImageView,
    i: int,
)
    requires
        c.wf(),
        t.in_range(),
        0 <= i < c.depth.len(),
    ensures
        drawn(c, t, uv, texture).depth[i] >= c.depth[i],
{
    let width = c.frame.width as int;
    let height = c.frame.height as int;
    lemma_index_split(width, height, i);
    let x = i % width;
    let y = i / width;
    if wins(c, t, texture, x, y) {
        let w = fragment_weights(t, width, height, x, y);
        crate::math::lemma_weights_sum_to_one(project_triangle(t, width, height), x, y);
        lemma_interpolate_bound(
            w,
            t.vertex_1.z as int,
            t.vertex_2.z as int,
            t.vertex_3.z as int,
            COORD_MAX as int,
        );
    }
}

/// Draws a triangle on the frame buffer.
///
/// The triangle is projected to the screen, every pixel of the frame that
/// lies inside it is tested against the depth buffer, and each pixel that
/// wins takes the texel that its fragment samples, under the light intensity
/// of the face.  A back-facing or degenerate triangle draws nothing.
pub fn draw_triangle(
    buf: &mut Image,
    triangle: Triangle3d,
    z_buffer: &mut Vec<i64>,
    texture: &Image,
    triangle_texture: TriangleTexture,
)
    requires
        old(z_buffer)@.len() == old(buf)@.width * old(buf)@.height,
        triangle.in_range(),
        triangle_texture.in_range(),
    ensures
        (Canvas { frame: final(buf)@, depth: final(z_buffer)@ }) == drawn(
            Canvas { frame: old(buf)@, depth: old(z_buffer)@ },
            triangle,
            triangle_texture,
            texture@,
        ),
        (Canvas { frame: final(buf)@, depth: final(z_buffer)@ }).wf(),
        skipped(triangle, texture@, old(buf)@.width as int, old(buf)@.height as int) ==> final(buf)@
            == old(buf)@ && final(z_buffer)@ == old(z_buffer)@,
        forall|i: int|
            0 <= i < old(z_buffer)@.len() ==> #[trigger] final(z_buffer)@[i] >= old(z_buffer)@[i],
{
    let w: u32 = buf.width();
    let h: u32 = buf.height();
    let ghost c = Canvas { frame: buf@, depth: z_buffer@ };
    proof {
        assert forall|i: int| 0 <= i < c.depth.len() implies #[trigger] drawn(
            c,
            triangle,
            triangle_texture,
            texture@,
        ).depth[i] >= c.depth[i] by {
            lemma_depth_never_decreases(c, triangle, triangle_texture, texture@, i);
        }
        if skipped(triangle, texture@, w as int, h as int) {
            lemma_nothing_drawn(c, triangle, triangle_texture, texture@);
        }
    }
    if w == 0 || h == 0 {
        proof {
            assert(c.frame.pixels.len() == 0) by (nonlinear_arith)
                requires
                    c.frame.pixels.len() == w * h,
                    w == 0 || h == 0,
            ;
            lemma_nothing_drawn(c, triangle, triangle_texture, texture@);
        }
        return ;
    }
    let intensity: i64 = match face_intensity(&triangle) {
        Some(i) => i,
        None => {
            return ;
        },
    };
    if texture.width() == 0 || texture.height() == 0 {
        return ;
    }
    let triangle_2d = Triangle2d {
        point_1: find_screen_coordinates(&triangle.vertex_1, w, h),
        point_2: find_screen_coordinates(&triangle.vertex_2, w, h),
        point_3: find_screen_coordinates(&triangle.vertex_3, w, h),
    };
    let bb: BoundingBox = find_bounding_box(&triangle_2d);
    assert(0 <= bb.min_values.x <= bb.max_values.x < w);
    assert(0 <= bb.min_values.y <= bb.max_values.y < h);
    let mut x: u32 = bb.min_values.x as u32;
    while x <= bb.max_values.x as u32
        invariant
            c.wf(),
            c.frame.width == w,
            c.frame.height == h,
            triangle.in_range(),
            triangle_texture.in_range(),
            triangle_2d == project_triangle(triangle, w as int, h as int),
            bb == crate::utility::bounding_box_of(triangle_2d),
            0 <= bb.min_values.x <= bb.max_values.x < w,
            0 <= bb.min_values.y <= bb.max_values.y < h,
            !back_facing(triangle),
            texture@.width > 0,
            texture@.height > 0,
            intensity == intensity_of(triangle),
            bb.min_values.x <= x <= bb.max_values.x + 1,
            scanned(
                Canvas { frame: buf@, depth: z_buffer@ },
                c,
                triangle,
                triangle_texture,
                texture@,
                bb,
                x as int,
                bb.min_values.y as int,
            ),
        decreases bb.max_values.x + 1 - x,
    {
        let mut y: u32 = bb.min_values.y as u32;
        while y <= bb.max_values.y as u32
            invariant
                c.wf(),
                c.frame.width == w,
                c.frame.height == h,
                triangle.in_range(),
                triangle_texture.in_range(),
                triangle_2d == project_triangle(triangle, w as int, h as int),
                0 <= bb.min_values.x <= bb.max_values.x < w,
                0 <= bb.min_values.y <= bb.max_values.y < h,
                !back_facing(triangle),
                texture@.width > 0,
                texture@.height > 0,
                intensity == intensity_of(triangle),
                bb.min_values.x <= x <= bb.max_values.x,
                bb.min_values.y <= y <= bb.max_values.y + 1,
                scanned(
                    Canvas { frame: buf@, depth: z_buffer@ },
                    c,
                    triangle,
                    triangle_texture,
                    texture@,
                    bb,
                    x as int,
                    y as int,
                ),
            decreases bb.max_values.y + 1 - y,
        {
            let ghost before = Canvas { frame: buf@, depth: z_buffer@ };
            draw_fragment(
                buf,
                z_buffer,
                x,
                y,
                &triangle,
                &triangle_2d,
                intensity,
                texture,
                &triangle_texture,
            );
            proof {
                lemma_scan_step(
                    before,
                    Canvas { frame: buf@, depth: z_buffer@ },
                    c,
                    triangle,
                    triangle_texture,
                    texture@,
                    bb,
                    x as int,
                    y as int,
                );
            }
            y = y + 1;
        }
        proof {
            lemma_next_column(
                Canvas { frame: buf@, depth: z_buffer@ },
                c,
                triangle,
                triangle_texture,
                texture@,
                bb,
                x as int,
            );
        }
        x = x + 1;
    }
    proof {
        lemma_scan_done(
            Canvas { frame: buf@, depth: z_buffer@ },
            c,
            triangle,
            triangle_texture,
            texture@,
            bb,
        );
    }
}

/// A column scanned to its end is the next column not yet begun.
proof fn lemma_next_column(
    cur: Canvas,
    c: Canvas,
    t: Triangle3d,
    uv: TriangleTexture,
    texture: ImageView,
    bb: BoundingBox,
    x: int,
)
    requires
        bb.min_values.x <= x,
        scanned(cur, c, t, uv, texture, bb, x, bb.max_values.y + 1),
    ensures
        scanned(cur, c, t, uv, texture, bb, x + 1, bb.min_values.y as int),
{
    assert forall|qx: int, qy: int|
        #[trigger] visited(bb, x, bb.max_values.y + 1, qx, qy) == visited(
            bb,
            x + 1,
            bb.min_values.y as int,
            qx,
            qy,
        ) by {}
}

/// Why a mesh cannot be rendered.
#[derive(Clone, Copy, Debug, PartialEq, Eq, Structural)]
pub enum RenderError {
    /// The mesh has faces but no texture coordinates.
    MissingUv,
    /// The frame or its depth buffer would not fit in memory.
    FrameTooLarge,
}

/// The colour of a pixel that no triangle covers: black.
pub open spec fn background() -> Color {
    Color { r: 0, g: 0, b: 0 }
}

/// The canvas before any triangle is drawn: every pixel has the background
/// colour and the depth `DEPTH_SENTINEL`.
pub open spec fn blank_canvas(width: int, height: int) -> Canvas {
    Canvas {
        frame: ImageView {
            width: width as nat,
            height: height as nat,
            pixels: Seq::new((width * height) as nat, |i: int| background()),
        },
        depth: Seq::new((width * height) as nat, |i: int| DEPTH_SENTINEL),
    }
}

/// The canvas after the first `faces` faces of the mesh have been drawn, in order.
pub open spec fn rendered(mesh: MeshView, texture: ImageView, width: int, height: int, faces: int)
    -> Canvas
    decreases faces,
{
    if faces <= 0 {
        blank_canvas(width, height)
    } else {
        drawn(
            rendered(mesh, texture, width, height, faces - 1),
            mesh.triangle(faces - 1),
            mesh.texture_triangle(faces - 1),
            texture,
        )
    }
}

/// Whether a frame of `width` by `height` pixels fits in memory together with
/// its depth buffer: the image can be made, and the eight bytes per pixel
/// of the depths fit in a vector.
pub open spec fn frame_fits(width: int, height: int) -> bool {
    image_fits(width, height) && 8 * (width * height) <= isize::MAX
}

/// The reason why the mesh cannot be rendered at this size, if there is one.
pub open spec fn render_fault(mesh: MeshView, width: int, height: int) -> Option<RenderError> {
    if mesh.face_count() > 0 && !mesh.has_texcoords() {
        Some(RenderError::MissingUv)
    } else if !frame_fits(width, height) {
        Some(RenderError::FrameTooLarge)
    } else {
        None
    }
}

/// Renders a mesh to a fresh image of `width` by `height` pixels.
///
/// The faces are drawn in order onto a black frame, each pixel keeping the
/// fragment with the greatest depth, and the finished frame is turned by half
/// a turn.
pub fn render(mesh: &Mesh, texture: &Image, width: u32, height: u32) -> (r: Result<
    Image,
    RenderError,
>)
    ensures
        match render_fault(mesh@, width as int, height as int) {
            Some(e) => r is Err && r->Err_0 == e,
            None => r is Ok && r->Ok_0@ == rendered(
                mesh@,
                texture@,
                width as int,
                height as int,
                mesh@.face_count(),
            ).frame.rotated180(),
        },
{
    let faces: usize = mesh.face_count();
    if faces > 0 && !mesh.has_texcoords() {
        return Err(RenderError::MissingUv);
    }
    proof {
        crate::arith::lemma_mul_bound_nonneg(
            width as int,
            height as int,
            0xffff_ffff,
            0xffff_ffff,
        );
    }
    let depth_bytes: u128 = 8 * (width as u128 * height as u128);
    if depth_bytes > isize::MAX as u128 {
        return Err(RenderError::FrameTooLarge);
    }
    let mut imgbuf: Image = match Image::new(width, height, Color { r: 0, g: 0, b: 0 }) {
        Some(img) => img,
        None => {
            return Err(RenderError::FrameTooLarge);
        },
    };
    proof {
        crate::arith::lemma_mul_bound_nonneg(
            width as int,
            height as int,
            width as int,
            height as int,
        );
    }
    let area: usize = width as usize * height as usize;
    let mut z_buffer: Vec<i64> = vec![DEPTH_SENTINEL; area];
    assert(z_buffer@ =~= blank_canvas(width as int, height as int).depth);
    let mut f: usize = 0;
    while f < faces
        invariant
            f <= faces,
            faces == mesh@.face_count(),
            mesh@.wf(),
            faces > 0 ==> mesh@.has_texcoords(),
            (Canvas { frame: imgbuf@, depth: z_buffer@ }) == rendered(
                mesh@,
                texture@,
                width as int,
                height as int,
                f as int,
            ),
            (Canvas { frame: imgbuf@, depth: z_buffer@ }).wf(),
        decreases faces - f,
    {
        let triangle: Triangle3d = mesh.triangle(f);
        let texture_triangle: TriangleTexture = mesh.texture_triangle(f);
        draw_triangle(&mut imgbuf, triangle, &mut z_buffer, texture, texture_triangle);
        f = f + 1;
    }
    Ok(imgbuf.rotate180())
}

/// After the first face of a render pass, a pixel that the face covers has
/// the colour of its fragment, and every other pixel has the background
/// colour.  A face that is skipped covers no pixel.
pub proof fn lemma_first_face(
    mesh: MeshView,
    texture: ImageView,
    width: int,
    height: int,
    x: int,
    y: int,
)
    requires
        mesh.wf(),
        mesh.face_count() >= 1,
        0 <= x < width,
        0 <= y < height,
    ensures
        rendered(mesh, texture, width, height, 1).frame.pixel(x, y) == (if !skipped(
            mesh.triangle(0),
            texture,
            width,
            height,
        ) && fragment_weights(mesh.triangle(0), width, height, x, y).inside() {
            fragment_color(
                mesh.triangle(0),
                mesh.texture_triangle(0),
                texture,
                width,
                height,
                x,
                y,
            )
        } else {
            background()
        }),
{
    let blank = rendered(mesh, texture, width, height, 0);
    assert(blank == blank_canvas(width, height));
    lemma_rendered_wf(mesh, texture, width, height, 0);
    lemma_index_in_range(width, height, x, y);
    crate::mesh::lemma_faces_in_range(mesh, 0);
    let t = mesh.triangle(0);
    let uv = mesh.texture_triangle(0);
    assert(rendered(mesh, texture, width, height, 1) == drawn(blank, t, uv, texture));
    lemma_drawn_pixel(blank, t, uv, texture, x, y);
    if !skipped(t, texture, width, height) && fragment_weights(t, width, height, x, y).inside() {
        lemma_fresh_pixel_is_filled(blank, t, uv, texture, x, y);
    }
}

/// The canvas of a render pass keeps its size and its shape through every face.
pub proof fn lemma_rendered_wf(
    mesh: MeshView,
    texture: ImageView,
    width: int,
    height: int,
    faces: int,
)
    requires
        0 <= width,
        0 <= height,
    ensures
        rendered(mesh, texture, width, height, faces).wf(),
        rendered(mesh, texture, width, height, faces).frame.width == width,
        rendered(mesh, texture, width, height, faces).frame.height == height,
    decreases faces,
{
    if faces > 0 {
        lemma_rendered_wf(mesh, texture, width, height, faces - 1);
    } else {
        assert(width * height >= 0) by (nonlinear_arith)
            requires
                0 <= width,
                0 <= height,
        ;
    }
}

/// Within one render pass the depth stored for a pixel never decreases:
/// after `later` faces it is at least what it was after `earlier` faces.
pub proof fn lemma_rendered_depth_monotone(
    mesh: MeshView,
    texture: ImageView,
    width: int,
    height: int,
    earlier: int,
    later: int,
    i: int,
)
    requires
        mesh.wf(),
        0 <= width,
        0 <= height,
        0 <= earlier <= later <= mesh.face_count(),
        0 <= i < width * height,
    ensures
        rendered(mesh, texture, width, height, later).depth[i] >= rendered(
            mesh,
            texture,
            width,
            height,
            earlier,
        ).depth[i],
    decreases later - earlier,
{
    if earlier < later {
        lemma_rendered_depth_monotone(mesh, texture, width, height, earlier, later - 1, i);
        lemma_rendered_wf(mesh, texture, width, height, later - 1);
        crate::mesh::lemma_faces_in_range(mesh, later - 1);
        lemma_depth_never_decreases(
            rendered(mesh, texture, width, height, later - 1),
            mesh.triangle(later - 1),
            mesh.texture_triangle(later - 1),
            texture,
            i,
        );
    }
}

/// The mark that shows the orientation of an image at pixel `(x, y)`, if
/// there is one: green at `(1, 1)`, red at `(99, 1)`, blue at `(99, 99)`.
pub open spec fn orientation_mark(x: int, y: int) -> Option<Color> {
    if x == 1 && y == 1 {
        Some(Color { r: 0, g: 255, b: 0 })
    } else if x == 99 && y == 1 {
        Some(Color { r: 255, g: 0, b: 0 })
    } else if x == 99 && y == 99 {
        Some(Color { r: 0, g: 0, b: 255 })
    } else {
        None
    }
}

/// Draws three pixels of different colours near three corners of a 100 by
/// 100 image, to show which way up it is.  A mark that falls outside a
/// smaller image is left out.
pub fn draw_orientation_marks(imgbuf: &mut Image)
    ensures
        final(imgbuf)@.width == old(imgbuf)@.width,
        final(imgbuf)@.height == old(imgbuf)@.height,
        final(imgbuf)@.wf(),
        forall|x: int, y: int|
            old(imgbuf)@.contains(x, y) ==> #[trigger] final(imgbuf)@.pixel(x, y) == (
            match orientation_mark(x, y) {
                Some(c) => c,
                None => old(imgbuf)@.pixel(x, y),
            }),
{
    draw_point(imgbuf, Vec2i { x: 1, y: 1 }, Color { r: 0, g: 255, b: 0 });
    draw_point(imgbuf, Vec2i { x: 99, y: 1 }, Color { r: 255, g: 0, b: 0 });
    draw_point(imgbuf, Vec2i { x: 99, y: 99 }, Color { r: 0, g: 0, b: 255 });
}

} // verus!
