//! The line drawer: an incremental error-accumulating walk along the longer axis.

use crate::arith::lemma_floor_div_unique;
use crate::buffer::{lemma_index_in_range, lemma_index_injective, Color, Image};
use crate::math::{Vec2i, Vector2};
use crate::utility::swap;
use vstd::prelude::*;

verus! {

/// The magnitude of an integer.
pub open spec fn magnitude(v: int) -> int {
    if v >= 0 {
        v
    } else {
        -v
    }
}

/// The two endpoints of a line as the walk sees them: transposed when the line
/// is steep, and ordered so that `x1 <= x2`.
pub struct LinePlan {
    pub steep: bool,
    pub x1: int,
    pub y1: int,
    pub x2: int,
    pub y2: int,
}

impl LinePlan {
    /// The number of steps, one per unit of the longer axis.
    pub open spec fn run(self) -> int {
        self.x2 - self.x1
    }

    /// The extent along the shorter axis.
    pub open spec fn rise(self) -> int {
        magnitude(self.y2 - self.y1)
    }

    /// The direction in which `y` moves: towards `y2`.
    pub open spec fn sign(self) -> int {
        if self.y2 > self.y1 {
            1
        } else {
            -1
        }
    }

    /// How often `y` has moved before step `i`: the accumulated error
    /// `i * rise / run` rounded to the nearest integer, halves rounding up.
    pub open spec fn climbed(self, i: int) -> int {
        (2 * i * self.rise() + self.run()) / (2 * self.run())
    }

    /// The pixel written at step `i`.
    pub open spec fn point(self, i: int) -> Vector2 {
        let x = self.x1 + i;
        let y = self.y1 + self.sign() * self.climbed(i);
        if self.steep {
            Vector2 { x: y, y: x }
        } else {
            Vector2 { x, y }
        }
    }
}

/// The walk for the line from `p1` to `p2`.
pub open spec fn line_plan(p1: Vec2i, p2: Vec2i) -> LinePlan {
    let steep = magnitude(p1.x - p2.x) < magnitude(p1.y - p2.y);
    let ax: int = if steep {
        p1.y as int
    } else {
        p1.x as int
    };
    let ay: int = if steep {
        p1.x as int
    } else {
        p1.y as int
    };
    let bx: int = if steep {
        p2.y as int
    } else {
        p2.x as int
    };
    let by: int = if steep {
        p2.x as int
    } else {
        p2.y as int
    };
    if ax > bx {
        LinePlan { steep, x1: bx, y1: by, x2: ax, y2: ay }
    } else {
        LinePlan { steep, x1: ax, y1: ay, x2: bx, y2: by }
    }
}

/// The number of pixels of the line from `p1` to `p2`.
///
/// Between two different points it is the larger of the two coordinate
/// distances, and the endpoint with the larger coordinate on the longer axis
/// is not among the pixels.  A line from a point to itself is that one point.
pub open spec fn line_len(p1: Vec2i, p2: Vec2i) -> int {
    if p1 == p2 {
        1
    } else {
        line_plan(p1, p2).run()
    }
}

/// The `i`-th pixel of the line from `p1` to `p2`.
pub open spec fn line_point(p1: Vec2i, p2: Vec2i, i: int) -> Vector2 {
    if p1 == p2 {
        p1@
    } else {
        line_plan(p1, p2).point(i)
    }
}

/// The pixels of the line from `p1` to `p2`, in the order of the walk.
pub open spec fn line_pixels(p1: Vec2i, p2: Vec2i) -> Seq<Vector2> {
    Seq::new(line_len(p1, p2) as nat, |i: int| line_point(p1, p2, i))
}

/// Whether `(px, py)` is one of the first `n` pixels of the line.
pub open spec fn drawn_before(p1: Vec2i, p2: Vec2i, n: int, px: int, py: int) -> bool {
    exists|i: int| 0 <= i < n && #[trigger] line_point(p1, p2, i) == (Vector2 { x: px, y: py })
}

/// Whether `(px, py)` is a pixel of the line from `p1` to `p2`.
pub open spec fn on_line(p1: Vec2i, p2: Vec2i, px: int, py: int) -> bool {
    drawn_before(p1, p2, line_len(p1, p2), px, py)
}

/// A line between two different points has one pixel per unit of the longer
/// of its two extents; a line from a point to itself has one pixel.
pub proof fn lemma_line_len(p1: Vec2i, p2: Vec2i)
    ensures
        line_len(p1, p2) >= 1,
        p1 == p2 ==> line_len(p1, p2) == 1,
        p1 != p2 ==> line_len(p1, p2) == if magnitude(p1.x - p2.x) < magnitude(p1.y - p2.y) {
            magnitude(p1.y - p2.y)
        } else {
            magnitude(p1.x - p2.x)
        },
        line_plan(p1, p2).rise() <= line_plan(p1, p2).run(),
        line_pixels(p1, p2).len() == line_len(p1, p2),
{
}

/// A point is on the line exactly if it is one of its pixels.
pub proof fn lemma_on_line_is_a_pixel(p1: Vec2i, p2: Vec2i, px: int, py: int)
    ensures
        on_line(p1, p2, px, py) == line_pixels(p1, p2).contains(Vector2 { x: px, y: py }),
        p1 == p2 ==> on_line(p1, p2, px, py) == (px == p1.x && py == p1.y),
{
    lemma_line_len(p1, p2);
    let target = Vector2 { x: px, y: py };
    let pixels = line_pixels(p1, p2);
    if on_line(p1, p2, px, py) {
        let i = choose|i: int| 0 <= i < line_len(p1, p2) && #[trigger] line_point(p1, p2, i) == target;
        assert(pixels[i] == target);
    }
    if pixels.contains(target) {
        let i = choose|i: int| 0 <= i < pixels.len() && pixels[i] == target;
        assert(line_point(p1, p2, i) == target);
    }
    if p1 == p2 && px == p1.x && py == p1.y {
        assert(line_point(p1, p2, 0) == target);
    }
}

/// No pixel of a line is drawn twice: two different steps of the walk stand
/// on two different pixels, so the line has exactly `line_len` pixels.
pub proof fn lemma_line_pixels_distinct(p1: Vec2i, p2: Vec2i, i: int, j: int)
    requires
        0 <= i < line_len(p1, p2),
        0 <= j < line_len(p1, p2),
        i != j,
    ensures
        line_point(p1, p2, i) != line_point(p1, p2, j),
        line_pixels(p1, p2)[i] != line_pixels(p1, p2)[j],
{
    lemma_one_pixel_per_step(p1, p2, i);
    lemma_one_pixel_per_step(p1, p2, j);
}

/// The coordinate of a point along the longer axis of the line.
pub open spec fn along(plan: LinePlan, p: Vector2) -> int {
    if plan.steep {
        p.y
    } else {
        p.x
    }
}

/// Step `i` of the walk stands `i` units from its start along the longer
/// axis: the line has exactly one pixel for each unit of that axis.
pub proof fn lemma_one_pixel_per_step(p1: Vec2i, p2: Vec2i, i: int)
    requires
        p1 != p2,
    ensures
        along(line_plan(p1, p2), line_point(p1, p2, i)) == line_plan(p1, p2).x1 + i,
{
}

/// A line starts on the endpoint with the smaller coordinate along its longer axis.
pub proof fn lemma_line_starts_at_near_end(p1: Vec2i, p2: Vec2i)
    ensures
        line_point(p1, p2, 0) == (if line_plan(p1, p2).steep {
            Vector2 { x: line_plan(p1, p2).y1, y: line_plan(p1, p2).x1 }
        } else {
            Vector2 { x: line_plan(p1, p2).x1, y: line_plan(p1, p2).y1 }
        }),
        line_point(p1, p2, 0) == p1@ || line_point(p1, p2, 0) == p2@,
{
    let plan = line_plan(p1, p2);
    if p1 != p2 {
        assert(2 * 0 * plan.rise() == 0) by (nonlinear_arith);
        assert(0 * (2 * plan.run()) == 0) by (nonlinear_arith);
        assert((0 + 1) * (2 * plan.run()) == 2 * plan.run()) by (nonlinear_arith);
        lemma_floor_div_unique(plan.run(), 2 * plan.run(), 0);
        assert(plan.sign() * 0 == 0) by (nonlinear_arith);
    }
}

/// Between two different points, the endpoint with the larger coordinate
/// along the longer axis is never drawn.
pub proof fn lemma_far_end_not_drawn(p1: Vec2i, p2: Vec2i)
    requires
        p1 != p2,
    ensures
        ({
            let plan = line_plan(p1, p2);
            if plan.steep {
                !on_line(p1, p2, plan.y2, plan.x2)
            } else {
                !on_line(p1, p2, plan.x2, plan.y2)
            }
        }),
{
    let plan = line_plan(p1, p2);
    assert forall|i: int| 0 <= i < line_len(p1, p2) implies along(
        plan,
        #[trigger] line_point(p1, p2, i),
    ) != plan.x2 by {
        lemma_one_pixel_per_step(p1, p2, i);
    }
}

/// One more step draws one more pixel.
proof fn lemma_drawn_step(p1: Vec2i, p2: Vec2i, n: int, px: int, py: int)
    requires
        0 <= n,
    ensures
        drawn_before(p1, p2, n + 1, px, py) <==> (drawn_before(p1, p2, n, px, py) || line_point(
            p1,
            p2,
            n,
        ) == (Vector2 { x: px, y: py })),
{
    let target = Vector2 { x: px, y: py };
    if drawn_before(p1, p2, n + 1, px, py) {
        let i = choose|i: int| 0 <= i < n + 1 && #[trigger] line_point(p1, p2, i) == target;
        if i < n {
            assert(drawn_before(p1, p2, n, px, py));
        }
    }
    if drawn_before(p1, p2, n, px, py) {
        let i = choose|i: int| 0 <= i < n && #[trigger] line_point(p1, p2, i) == target;
        assert(0 <= i < n + 1 && line_point(p1, p2, i) == target);
    }
    if line_point(p1, p2, n) == target {
        assert(0 <= n < n + 1 && line_point(p1, p2, n) == target);
    }
}

/// The error accumulator after one more step: `climbed` grows by one exactly
/// when the accumulated error has reached one half.
proof fn lemma_climb_step(plan: LinePlan, i: int, k: int, err: int)
    requires
        plan.run() > 0,
        0 <= plan.rise() <= plan.run(),
        i >= 0,
        err == 2 * i * plan.rise() - 2 * plan.run() * k,
        -plan.run() <= err < plan.run(),
    ensures
        plan.climbed(i) == k,
        err + 2 * plan.rise() >= plan.run() ==> plan.climbed(i + 1) == k + 1,
        err + 2 * plan.rise() < plan.run() ==> plan.climbed(i + 1) == k,
{
    let run = plan.run();
    let rise = plan.rise();
    assert(k * (2 * run) == 2 * run * k) by (nonlinear_arith);
    assert((k + 1) * (2 * run) == 2 * run * k + 2 * run) by (nonlinear_arith);
    assert((k + 2) * (2 * run) == 2 * run * k + 4 * run) by (nonlinear_arith);
    lemma_floor_div_unique(2 * i * rise + run, 2 * run, k);
    assert(2 * (i + 1) * rise == 2 * i * rise + 2 * rise) by (nonlinear_arith);
    if err + 2 * rise >= run {
        lemma_floor_div_unique(2 * (i + 1) * rise + run, 2 * run, k + 1);
    } else {
        lemma_floor_div_unique(2 * (i + 1) * rise + run, 2 * run, k);
    }
}

/// Sets the pixel at `pos` to `color` if it lies in the image.
pub fn draw_point(buf: &mut Image, pos: Vec2i, color: Color)
    ensures
        final(buf)@.width == old(buf)@.width,
        final(buf)@.height == old(buf)@.height,
        final(buf)@.wf(),
        forall|x: int, y: int|
            old(buf)@.contains(x, y) ==> #[trigger] final(buf)@.pixel(x, y) == (if x == pos.x && y
                == pos.y {
                color
            } else {
                old(buf)@.pixel(x, y)
            }),
{
    let w: u32 = buf.width();
    let h: u32 = buf.height();
    if pos.x >= 0 && pos.y >= 0 {
        let ghost before = buf@;
        let written: bool = buf.put_pixel(pos.x as u32, pos.y as u32, color);
        proof {
            assert forall|x: int, y: int| before.contains(x, y) implies #[trigger] buf@.pixel(
                x,
                y,
            ) == (if x == pos.x && y == pos.y {
                color
            } else {
                before.pixel(x, y)
            }) by {
                lemma_index_in_range(w as int, h as int, x, y);
                if written {
                    lemma_index_in_range(w as int, h as int, pos.x as int, pos.y as int);
                    if x != pos.x || y != pos.y {
                        if before.index(x, y) == before.index(pos.x as int, pos.y as int) {
                            lemma_index_injective(w as int, x, y, pos.x as int, pos.y as int);
                        }
                    }
                }
            }
        }
    }
}

/// Draws the line from `pos1` to `pos2` in `color`, clipped to the image.
///
/// The walk takes one step per unit of the longer axis, from the endpoint
/// with the smaller coordinate on that axis up to, but not including, the
/// other endpoint.
///
/// A line whose endpoints coincide has no extent to divide by: it
/// degenerates to a single point, and exactly that pixel is drawn.
pub fn draw_line(buf: &mut Image, pos1: Vec2i, pos2: Vec2i, color: Color)
    ensures
        final(buf)@.width == old(buf)@.width,
        final(buf)@.height == old(buf)@.height,
        final(buf)@.wf(),
        forall|x: int, y: int|
            old(buf)@.contains(x, y) ==> #[trigger] final(buf)@.pixel(x, y) == (if on_line(
                pos1,
                pos2,
                x,
                y,
            ) {
                color
            } else {
                old(buf)@.pixel(x, y)
            }),
{
    if pos1.x == pos2.x && pos1.y == pos2.y {
        draw_point(buf, pos1, color);
        proof {
            assert forall|x: int, y: int| on_line(pos1, pos2, x, y) == (x == pos1.x && y
                == pos1.y) by {
                lemma_on_line_is_a_pixel(pos1, pos2, x, y);
            }
        }
        return ;
    }
    let mut x1: i32 = pos1.x;
    let mut y1: i32 = pos1.y;
    let mut x2: i32 = pos2.x;
    let mut y2: i32 = pos2.y;
    let span_x: i64 = if x1 as i64 - x2 as i64 >= 0 {
        x1 as i64 - x2 as i64
    } else {
        x2 as i64 - x1 as i64
    };
    let span_y: i64 = if y1 as i64 - y2 as i64 >= 0 {
        y1 as i64 - y2 as i64
    } else {
        y2 as i64 - y1 as i64
    };
    let steep: bool = span_x < span_y;
    if steep {
        swap(&mut x1, &mut y1);
        swap(&mut x2, &mut y2);
    }
    if x1 > x2 {
        swap(&mut x1, &mut x2);
        swap(&mut y1, &mut y2);
    }
    let ghost plan = line_plan(pos1, pos2);
    assert(plan.steep == steep && plan.x1 == x1 && plan.y1 == y1 && plan.x2 == x2 && plan.y2
        == y2);
    let run: i64 = x2 as i64 - x1 as i64;
    let rise: i64 = if y2 as i64 - y1 as i64 >= 0 {
        y2 as i64 - y1 as i64
    } else {
        y1 as i64 - y2 as i64
    };
    let sign: i64 = if y2 > y1 {
        1
    } else {
        -1
    };
    let w: u32 = buf.width();
    let h: u32 = buf.height();
    let mut err: i64 = 0;
    let mut y: i64 = y1 as i64;
    let mut x: i64 = x1 as i64;
    let ghost mut climbed: int = 0;
    proof {
        assert(2 * 0 * plan.rise() == 0) by (nonlinear_arith);
        assert(2 * plan.run() * 0 == 0) by (nonlinear_arith);
    }
    while x < x2 as i64
        invariant
            pos1 != pos2,
            plan == line_plan(pos1, pos2),
            plan.steep == steep,
            plan.x1 == x1,
            plan.y1 == y1,
            plan.x2 == x2,
            plan.y2 == y2,
            run == plan.run(),
            rise == plan.rise(),
            sign == plan.sign(),
            0 <= rise <= run <= 0xffff_ffff,
            x1 <= x <= x2,
            x < x2 ==> run > 0,
            0 <= climbed <= x - x1,
            y == y1 + sign * climbed,
            err == 2 * (x - x1) * rise - 2 * run * climbed,
            x < x2 ==> -run <= err < run,
            w == old(buf)@.width,
            h == old(buf)@.height,
            buf@.width == old(buf)@.width,
            buf@.height == old(buf)@.height,
            buf@.wf(),
            forall|px: int, py: int|
                old(buf)@.contains(px, py) ==> #[trigger] buf@.pixel(px, py) == (if drawn_before(
                    pos1,
                    pos2,
                    x - x1,
                    px,
                    py,
                ) {
                    color
                } else {
                    old(buf)@.pixel(px, py)
                }),
        decreases x2 - x,
    {
        let ghost i = x - x1;
        let ghost before = buf@;
        proof {
            lemma_climb_step(plan, i, climbed, err as int);
            assert(sign * climbed >= -climbed && sign * climbed <= climbed) by (nonlinear_arith)
                requires
                    sign == 1 || sign == -1,
                    climbed >= 0,
            ;
        }
        let px: i64 = if steep {
            y
        } else {
            x
        };
        let py: i64 = if steep {
            x
        } else {
            y
        };
        assert(line_point(pos1, pos2, i) == (Vector2 { x: px as int, y: py as int }));
        let mut written: bool = false;
        if 0 <= px && px < w as i64 && 0 <= py && py < h as i64 {
            written = buf.put_pixel(px as u32, py as u32, color);
        }
        proof {
            assert forall|qx: int, qy: int| old(buf)@.contains(qx, qy) implies #[trigger] buf@.pixel(
                qx,
                qy,
            ) == (if drawn_before(pos1, pos2, i + 1, qx, qy) {
                color
            } else {
                old(buf)@.pixel(qx, qy)
            }) by {
                lemma_drawn_step(pos1, pos2, i, qx, qy);
                lemma_index_in_range(w as int, h as int, qx, qy);
                if written {
                    lemma_index_in_range(w as int, h as int, px as int, py as int);
                    if qx != px || qy != py {
                        if before.index(qx, qy) == before.index(px as int, py as int) {
                            lemma_index_injective(w as int, qx, qy, px as int, py as int);
                        }
                    }
                }
                assert(before.pixel(qx, qy) == (if drawn_before(pos1, pos2, i, qx, qy) {
                    color
                } else {
                    old(buf)@.pixel(qx, qy)
                }));
            }
        }
        err = err + 2 * rise;
        if err >= run {
            y = y + sign;
            err = err - 2 * run;
            proof {
                climbed = climbed + 1;
            }
        }
        x = x + 1;
        proof {
            assert(2 * (x - x1) * rise == 2 * i * rise + 2 * rise) by (nonlinear_arith)
                requires
                    x - x1 == i + 1,
            ;
            assert(2 * run * (climbed - 1) == 2 * run * climbed - 2 * run) by (nonlinear_arith);
            assert(sign * (climbed - 1) == sign * climbed - sign) by (nonlinear_arith);
        }
    }
}

} // verus!
