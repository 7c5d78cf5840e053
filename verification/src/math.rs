//! Vectors, triangles and the operations on them.
//!
//! A coordinate is a fixed-point number: the integer `n` stands for `n / UNIT`.
//! Sums and differences keep that scale; a product of two coordinates is exact
//! and therefore carries the scale `UNIT * UNIT`.

use crate::arith::{
    floor_sqrt, is_floor_sqrt, isqrt, lemma_floor_div_bounds, lemma_floor_sqrt_exists,
    lemma_floor_sqrt_is, lemma_i64_product, lemma_mul_bound, lemma_mul_bound_nonneg,
};
use vstd::prelude::*;

verus! {

/// The integer that stands for the real number one.
pub const UNIT: i64 = 0x10_0000;

/// `UNIT * UNIT`: the integer that stands for one at the scale of a product
/// of two coordinates.
pub const UNIT_SQUARED: i64 = 0x100_0000_0000;

/// The largest magnitude of a coordinate that the renderer accepts (`2^29`, which stands for 512).
pub const COORD_MAX: i64 = 0x2000_0000;

/// A vector of three mathematical integers.
pub struct Vector3 {
    pub x: int,
    pub y: int,
    pub z: int,
}

/// A vector of two mathematical integers.
pub struct Vector2 {
    pub x: int,
    pub y: int,
}

impl Vector3 {
    pub open spec fn zero() -> Vector3 {
        Vector3 { x: 0, y: 0, z: 0 }
    }

    /// Componentwise difference.
    pub open spec fn minus(self, rhs: Vector3) -> Vector3 {
        Vector3 { x: self.x - rhs.x, y: self.y - rhs.y, z: self.z - rhs.z }
    }

    /// Componentwise product.
    pub open spec fn times(self, rhs: Vector3) -> Vector3 {
        Vector3 { x: self.x * rhs.x, y: self.y * rhs.y, z: self.z * rhs.z }
    }

    /// The right-handed cross product.
    pub open spec fn cross(self, rhs: Vector3) -> Vector3 {
        Vector3 {
            x: self.y * rhs.z - self.z * rhs.y,
            y: self.z * rhs.x - self.x * rhs.z,
            z: self.x * rhs.y - self.y * rhs.x,
        }
    }

    /// The dot product.
    pub open spec fn dot(self, rhs: Vector3) -> int {
        self.x * rhs.x + self.y * rhs.y + self.z * rhs.z
    }

    /// The squared Euclidean length.
    pub open spec fn norm_squared(self) -> int {
        self.x * self.x + self.y * self.y + self.z * self.z
    }

    /// The Euclidean length, rounded down.
    pub open spec fn norm(self) -> int {
        floor_sqrt(self.norm_squared())
    }

    /// The unit vector of the same direction: each component is
    /// `c * UNIT / sqrt(norm_squared)`, rounded toward zero.  The zero vector
    /// has no direction and stays zero.
    pub open spec fn normalized(self) -> Vector3 {
        if self.norm_squared() == 0 {
            Vector3::zero()
        } else {
            Vector3 {
                x: unit_component(self.x, self.norm_squared()),
                y: unit_component(self.y, self.norm_squared()),
                z: unit_component(self.z, self.norm_squared()),
            }
        }
    }

    /// Every component is an `i64` value.
    pub open spec fn fits_i64(self) -> bool {
        &&& i64::MIN <= self.x <= i64::MAX
        &&& i64::MIN <= self.y <= i64::MAX
        &&& i64::MIN <= self.z <= i64::MAX
    }

    /// Every component has magnitude at most `bound`.
    pub open spec fn within(self, bound: int) -> bool {
        &&& -bound <= self.x <= bound
        &&& -bound <= self.y <= bound
        &&& -bound <= self.z <= bound
    }
}

/// A fixed-point pair, such as a texture coordinate.
#[derive(Clone, Copy, Debug, PartialEq, Eq, Structural)]
pub struct Vec2f {
    pub x: i64,
    pub y: i64,
}

/// A screen point: a pixel column and a pixel row.
#[derive(Clone, Copy, Debug, PartialEq, Eq, Structural)]
pub struct Vec2i {
    pub x: i32,
    pub y: i32,
}

/// A fixed-point vector in space.
#[derive(Clone, Copy, Debug, PartialEq, Eq, Structural)]
pub struct Vec3f {
    pub x: i64,
    pub y: i64,
    pub z: i64,
}

impl View for Vec2i {
    type V = Vector2;

    open spec fn view(&self) -> Vector2 {
        Vector2 { x: self.x as int, y: self.y as int }
    }
}

impl View for Vec3f {
    type V = Vector3;

    open spec fn view(&self) -> Vector3 {
        Vector3 { x: self.x as int, y: self.y as int, z: self.z as int }
    }
}

impl Vec2f {
    /// Both components have magnitude at most `COORD_MAX`.
    pub open spec fn in_range(self) -> bool {
        -COORD_MAX <= self.x <= COORD_MAX && -COORD_MAX <= self.y <= COORD_MAX
    }
}

impl Vec3f {
    /// Every component has magnitude at most `COORD_MAX`.
    pub open spec fn in_range(self) -> bool {
        self@.within(COORD_MAX as int)
    }

    /// Componentwise difference.
    pub fn sub(self, rhs: Vec3f) -> (r: Vec3f)
        requires
            self@.minus(rhs@).fits_i64(),
        ensures
            r@ == self@.minus(rhs@),
    {
        Vec3f { x: self.x - rhs.x, y: self.y - rhs.y, z: self.z - rhs.z }
    }

    /// Componentwise product.
    pub fn mul(self, rhs: Vec3f) -> (r: Vec3f)
        requires
            self@.times(rhs@).fits_i64(),
        ensures
            r@ == self@.times(rhs@),
    {
        proof {
            lemma_i64_product(self.x, rhs.x);
            lemma_i64_product(self.y, rhs.y);
            lemma_i64_product(self.z, rhs.z);
        }
        let x: i128 = self.x as i128 * rhs.x as i128;
        let y: i128 = self.y as i128 * rhs.y as i128;
        let z: i128 = self.z as i128 * rhs.z as i128;
        Vec3f { x: x as i64, y: y as i64, z: z as i64 }
    }

    /// The Euclidean length, rounded down.
    pub fn norm(&self) -> (r: u64)
        ensures
            r == self@.norm(),
            is_floor_sqrt(r as int, self@.norm_squared()),
    {
        proof {
            lemma_i64_product(self.x, self.x);
            lemma_i64_product(self.y, self.y);
            lemma_i64_product(self.z, self.z);
            assert(self.x * self.x >= 0) by (nonlinear_arith);
            assert(self.y * self.y >= 0) by (nonlinear_arith);
            assert(self.z * self.z >= 0) by (nonlinear_arith);
        }
        let xx: i128 = self.x as i128 * self.x as i128;
        let yy: i128 = self.y as i128 * self.y as i128;
        let zz: i128 = self.z as i128 * self.z as i128;
        let sum: u128 = xx as u128 + yy as u128 + zz as u128;
        isqrt(sum)
    }

    /// The unit vector of the same direction; the zero vector stays zero.
    ///
    /// Each component of the result is `c * UNIT / sqrt(x*x + y*y + z*z)`
    /// rounded toward zero, the root taken exactly.
    pub fn normalize(&self) -> (r: Vec3f)
        ensures
            r@ == self@.normalized(),
            r@.within(UNIT as int),
            self@.norm_squared() == 0 ==> r@ == Vector3::zero(),
            self@.norm_squared() != 0 ==> {
                &&& is_unit_component(r.x as int, self.x as int, self@.norm_squared())
                &&& is_unit_component(r.y as int, self.y as int, self@.norm_squared())
                &&& is_unit_component(r.z as int, self.z as int, self@.norm_squared())
            },
    {
        proof {
            lemma_i64_product(self.x, self.x);
            lemma_i64_product(self.y, self.y);
            lemma_i64_product(self.z, self.z);
            assert(self.x * self.x >= 0) by (nonlinear_arith);
            assert(self.y * self.y >= 0) by (nonlinear_arith);
            assert(self.z * self.z >= 0) by (nonlinear_arith);
        }
        let xx: i128 = self.x as i128 * self.x as i128;
        let yy: i128 = self.y as i128 * self.y as i128;
        let zz: i128 = self.z as i128 * self.z as i128;
        let sum: u128 = xx as u128 + yy as u128 + zz as u128;
        if sum == 0 {
            return Vec3f { x: 0, y: 0, z: 0 };
        }
        Vec3f {
            x: scale_to_unit(self.x, sum),
            y: scale_to_unit(self.y, sum),
            z: scale_to_unit(self.z, sum),
        }
    }
}

/// The magnitude of an integer.
pub open spec fn magnitude_of(v: int) -> int {
    if v >= 0 {
        v
    } else {
        -v
    }
}

/// `q` is `c * UNIT / sqrt(n2)` rounded toward zero: it has the sign of `c`,
/// and `|q| <= |c| * UNIT / sqrt(n2) < |q| + 1`, stated over the squares.
pub open spec fn is_unit_component(q: int, c: int, n2: int) -> bool {
    &&& c >= 0 ==> q >= 0
    &&& c <= 0 ==> q <= 0
    &&& q * q * n2 <= c * c * UNIT_SQUARED
    &&& c * c * UNIT_SQUARED < (magnitude_of(q) + 1) * (magnitude_of(q) + 1) * n2
}

/// `c * UNIT / sqrt(n2)` rounded toward zero, for `n2 > 0`.
pub open spec fn unit_component(c: int, n2: int) -> int {
    let m = floor_sqrt((c * c * UNIT_SQUARED) / n2);
    if c >= 0 {
        m
    } else {
        -m
    }
}

/// A natural number `m` with `m*m*n2 <= s < (m+1)*(m+1)*n2` is the
/// rounded-down square root of `s / n2`.
proof fn lemma_root_of_quotient(m: int, s: int, n2: int)
    requires
        n2 > 0,
        m >= 0,
        m * m * n2 <= s,
        s < (m + 1) * (m + 1) * n2,
    ensures
        floor_sqrt(s / n2) == m,
{
    lemma_floor_div_bounds(s, n2);
    let t = s / n2;
    assert(m * m < t + 1) by (nonlinear_arith)
        requires
            n2 > 0,
            m * m * n2 <= s,
            s < (t + 1) * n2,
    ;
    assert((m + 1) * (m + 1) > t) by (nonlinear_arith)
        requires
            n2 > 0,
            t * n2 <= s,
            s < (m + 1) * (m + 1) * n2,
    ;
    lemma_floor_sqrt_is(m, t);
}

/// For a positive squared length, [`unit_component`] is the one integer
/// that satisfies [`is_unit_component`].
pub proof fn lemma_unit_component(c: int, n2: int)
    requires
        n2 > 0,
    ensures
        is_unit_component(unit_component(c, n2), c, n2),
        forall|q: int| is_unit_component(q, c, n2) ==> q == unit_component(c, n2),
{
    let s = c * c * UNIT_SQUARED;
    assert(s >= 0) by (nonlinear_arith)
        requires
            s == c * c * UNIT_SQUARED,
    ;
    lemma_floor_div_bounds(s, n2);
    let t = s / n2;
    lemma_floor_sqrt_exists(t);
    let m = floor_sqrt(t);
    assert(m * m * n2 <= s) by (nonlinear_arith)
        requires
            n2 > 0,
            m * m <= t,
            t * n2 <= s,
    ;
    assert(s < (m + 1) * (m + 1) * n2) by (nonlinear_arith)
        requires
            n2 > 0,
            t + 1 <= (m + 1) * (m + 1),
            s < (t + 1) * n2,
    ;
    assert((-m) * (-m) == m * m) by (nonlinear_arith);
    if c == 0 {
        assert(s == 0) by (nonlinear_arith)
            requires
                c == 0,
                s == c * c * UNIT_SQUARED,
        ;
        assert(m == 0) by (nonlinear_arith)
            requires
                m >= 0,
                n2 > 0,
                m * m * n2 <= 0,
        ;
    }
    assert forall|q: int| is_unit_component(q, c, n2) implies q == unit_component(c, n2) by {
        let k = magnitude_of(q);
        assert(k * k == q * q) by (nonlinear_arith)
            requires
                k == q || k == -q,
        ;
        lemma_root_of_quotient(k, s, n2);
    }
}

/// Whether `q*q*n2 <= a * UNIT_SQUARED`, computed without leaving 128 bits.
fn square_fits(q: u128, n2: u128, a: u128) -> (r: bool)
    requires
        q <= 0x10_0001,
        n2 <= 0xc000_0000_0000_0000_0000_0000_0000_0000,
        a <= 0x4000_0000_0000_0000_0000_0000_0000_0000,
    ensures
        r == (q * q * n2 <= a * UNIT_SQUARED),
{
    proof {
        lemma_mul_bound_nonneg(q as int, q as int, 0x10_0001, 0x10_0001);
    }
    let qq: u128 = q * q;
    let high: u128 = n2 / 0x100_0000_0000;
    let low: u128 = n2 % 0x100_0000_0000;
    proof {
        lemma_mul_bound_nonneg(
            qq as int,
            high as int,
            0x100_0020_0001,
            0xc0_0000_0000_0000_0000_0000,
        );
        lemma_mul_bound_nonneg(qq as int, low as int, 0x100_0020_0001, 0xff_ffff_ffff);
        assert(qq * n2 == (qq * high) * 0x100_0000_0000 + qq * low) by (nonlinear_arith)
            requires
                n2 == high * 0x100_0000_0000 + low,
        ;
        assert(a * UNIT_SQUARED == a * 0x100_0000_0000);
    }
    let high_part: u128 = qq * high;
    let low_part: u128 = qq * low;
    if high_part > a {
        false
    } else {
        let gap: u128 = a - high_part;
        if gap >= 0x400_0000_0000 {
            true
        } else {
            gap * 0x100_0000_0000 >= low_part
        }
    }
}

/// `c * UNIT / sqrt(n2)` rounded toward zero, for a component `c` of a
/// vector whose squared length is `n2`.
fn scale_to_unit(c: i64, n2: u128) -> (r: i64)
    requires
        n2 > 0,
        c * c <= n2,
        n2 <= 0xc000_0000_0000_0000_0000_0000_0000_0000,
    ensures
        r == unit_component(c as int, n2 as int),
        is_unit_component(r as int, c as int, n2 as int),
        -UNIT <= r <= UNIT,
{
    proof {
        lemma_i64_product(c, c);
        assert(c * c >= 0) by (nonlinear_arith);
    }
    let square: i128 = c as i128 * c as i128;
    let a: u128 = square as u128;
    let ghost target = a * UNIT_SQUARED;
    let mut lo: u128 = 0;
    let mut hi: u128 = 0x10_0001;
    proof {
        assert(0 * 0 * n2 == 0) by (nonlinear_arith);
        assert(target >= 0) by (nonlinear_arith)
            requires
                target == a * UNIT_SQUARED,
        ;
        assert(target < 0x10_0001 * 0x10_0001 * n2) by (nonlinear_arith)
            requires
                target == a * 0x100_0000_0000,
                a <= n2,
                n2 > 0,
        ;
    }
    while hi - lo > 1
        invariant
            lo < hi <= 0x10_0001,
            n2 <= 0xc000_0000_0000_0000_0000_0000_0000_0000,
            a <= 0x4000_0000_0000_0000_0000_0000_0000_0000,
            target == a * UNIT_SQUARED,
            lo * lo * n2 <= target,
            target < hi * hi * n2,
        decreases hi - lo,
    {
        let mid: u128 = lo + (hi - lo) / 2;
        if square_fits(mid, n2, a) {
            lo = mid;
        } else {
            hi = mid;
        }
    }
    proof {
        assert(c * c * UNIT_SQUARED == target);
        lemma_root_of_quotient(lo as int, target, n2 as int);
        assert((-lo) * (-lo) == lo * lo) by (nonlinear_arith);
        if c == 0 {
            assert(lo == 0) by (nonlinear_arith)
                requires
                    lo >= 0,
                    n2 > 0,
                    lo * lo * n2 <= target,
                    target == 0,
            ;
        }
    }
    if c >= 0 {
        lo as i64
    } else {
        -(lo as i64)
    }
}

/// The result of [`Vec3f::normalize`] is a unit vector up to rounding: for
/// every non-zero vector its squared length lies within `4 * UNIT + 3` of
/// `UNIT * UNIT`, so its length lies within three units of `UNIT`, which is
/// within three millionths of one; and each component keeps the sign of the
/// component it comes from.
pub proof fn lemma_normalized_length(v: Vector3)
    requires
        v != Vector3::zero(),
    ensures
        v.norm_squared() > 0,
        v.normalized().norm_squared() <= UNIT_SQUARED,
        v.normalized().norm_squared() > UNIT_SQUARED - 4 * UNIT - 3,
        v.normalized().within(UNIT as int),
        v.normalized() != Vector3::zero(),
        is_unit_component(v.normalized().x, v.x, v.norm_squared()),
        is_unit_component(v.normalized().y, v.y, v.norm_squared()),
        is_unit_component(v.normalized().z, v.z, v.norm_squared()),
{
    let n2 = v.norm_squared();
    assert(v.x * v.x >= 0 && v.y * v.y >= 0 && v.z * v.z >= 0) by (nonlinear_arith);
    assert(n2 > 0) by (nonlinear_arith)
        requires
            n2 == v.x * v.x + v.y * v.y + v.z * v.z,
            v.x != 0 || v.y != 0 || v.z != 0,
    ;
    lemma_unit_component(v.x, n2);
    lemma_unit_component(v.y, n2);
    lemma_unit_component(v.z, n2);
    let r = v.normalized();
    let a = magnitude_of(r.x);
    let b = magnitude_of(r.y);
    let c = magnitude_of(r.z);
    assert(a * a == r.x * r.x && b * b == r.y * r.y && c * c == r.z * r.z) by (nonlinear_arith)
        requires
            a == r.x || a == -r.x,
            b == r.y || b == -r.y,
            c == r.z || c == -r.z,
    ;
    let len2 = a * a + b * b + c * c;
    assert(r.norm_squared() == len2);
    let sx = v.x * v.x * UNIT_SQUARED;
    let sy = v.y * v.y * UNIT_SQUARED;
    let sz = v.z * v.z * UNIT_SQUARED;
    assert(sx + sy + sz == UNIT_SQUARED * n2) by (nonlinear_arith)
        requires
            sx == v.x * v.x * UNIT_SQUARED,
            sy == v.y * v.y * UNIT_SQUARED,
            sz == v.z * v.z * UNIT_SQUARED,
            n2 == v.x * v.x + v.y * v.y + v.z * v.z,
    ;
    // the upper bound: the squares of the components sum to at most UNIT * UNIT
    assert(len2 * n2 == a * a * n2 + b * b * n2 + c * c * n2) by (nonlinear_arith)
        requires
            len2 == a * a + b * b + c * c,
    ;
    assert(len2 <= UNIT_SQUARED) by (nonlinear_arith)
        requires
            n2 > 0,
            len2 * n2 <= UNIT_SQUARED * n2,
    ;
    // each component is at most UNIT
    lemma_component_at_most_unit(a, n2, sx);
    lemma_component_at_most_unit(b, n2, sy);
    lemma_component_at_most_unit(c, n2, sz);
    // the lower bound: the squares of the successors sum to more than UNIT * UNIT
    let up2 = (a + 1) * (a + 1) + (b + 1) * (b + 1) + (c + 1) * (c + 1);
    assert(up2 * n2 == (a + 1) * (a + 1) * n2 + (b + 1) * (b + 1) * n2 + (c + 1) * (c + 1) * n2)
        by (nonlinear_arith)
        requires
            up2 == (a + 1) * (a + 1) + (b + 1) * (b + 1) + (c + 1) * (c + 1),
    ;
    assert(up2 > UNIT_SQUARED) by (nonlinear_arith)
        requires
            n2 > 0,
            up2 * n2 > UNIT_SQUARED * n2,
    ;
    assert(up2 == len2 + 2 * (a + b + c) + 3) by (nonlinear_arith)
        requires
            up2 == (a + 1) * (a + 1) + (b + 1) * (b + 1) + (c + 1) * (c + 1),
            len2 == a * a + b * b + c * c,
    ;
    lemma_sum_below_two_units(a, b, c);
}

/// A natural number whose square times `n2` is at most `UNIT_SQUARED * n2` is at most `UNIT`.
proof fn lemma_component_at_most_unit(m: int, n2: int, s: int)
    by (nonlinear_arith)
    requires
        m >= 0,
        n2 > 0,
        0 <= s <= UNIT_SQUARED * n2,
        m * m * n2 <= s,
    ensures
        m <= UNIT,
{
    if m > UNIT {
        assert(m * m >= (UNIT + 1) * (UNIT + 1));
        assert(m * m * n2 >= (UNIT + 1) * (UNIT + 1) * n2);
    }
}

/// Three natural numbers whose squares sum to at most `UNIT_SQUARED` sum to less than `2 * UNIT`.
proof fn lemma_sum_below_two_units(a: int, b: int, c: int)
    by (nonlinear_arith)
    requires
        a >= 0,
        b >= 0,
        c >= 0,
        a * a + b * b + c * c <= UNIT_SQUARED,
    ensures
        a + b + c < 2 * UNIT,
{
    let t = a + b + c;
    assert(t * t <= 3 * (a * a + b * b + c * c)) by {
        assert(2 * a * b <= a * a + b * b) by {
            assert((a - b) * (a - b) >= 0);
        }
        assert(2 * a * c <= a * a + c * c) by {
            assert((a - c) * (a - c) >= 0);
        }
        assert(2 * b * c <= b * b + c * c) by {
            assert((b - c) * (b - c) >= 0);
        }
    }
    if t >= 2 * UNIT {
        assert(t * t >= 4 * (UNIT * UNIT));
    }
}

/// Three points in space.
#[derive(Clone, Copy, Debug, PartialEq, Eq, Structural)]
pub struct Triangle3d {
    pub vertex_1: Vec3f,
    pub vertex_2: Vec3f,
    pub vertex_3: Vec3f,
}

/// Three screen points.
#[derive(Clone, Copy, Debug, PartialEq, Eq, Structural)]
pub struct Triangle2d {
    pub point_1: Vec2i,
    pub point_2: Vec2i,
    pub point_3: Vec2i,
}

impl Triangle3d {
    /// Every coordinate of every vertex has magnitude at most `COORD_MAX`.
    pub open spec fn in_range(self) -> bool {
        self.vertex_1.in_range() && self.vertex_2.in_range() && self.vertex_3.in_range()
    }
}

/// The smallest of three integers.
pub open spec fn min3(a: int, b: int, c: int) -> int {
    if a <= b && a <= c {
        a
    } else if b <= c {
        b
    } else {
        c
    }
}

/// The largest of three integers.
pub open spec fn max3(a: int, b: int, c: int) -> int {
    if a >= b && a >= c {
        a
    } else if b >= c {
        b
    } else {
        c
    }
}

/// The smallest column and the smallest row among the three points.
pub fn find_min(values: &Triangle2d) -> (r: Vec2i)
    ensures
        r.x == min3(values.point_1.x as int, values.point_2.x as int, values.point_3.x as int),
        r.y == min3(values.point_1.y as int, values.point_2.y as int, values.point_3.y as int),
{
    let mut min_x_val: i32 = values.point_1.x;
    let mut min_y_val: i32 = values.point_1.y;
    if values.point_2.x < min_x_val {
        min_x_val = values.point_2.x;
    }
    if values.point_2.y < min_y_val {
        min_y_val = values.point_2.y;
    }
    if values.point_3.x < min_x_val {
        min_x_val = values.point_3.x;
    }
    if values.point_3.y < min_y_val {
        min_y_val = values.point_3.y;
    }
    Vec2i { x: min_x_val, y: min_y_val }
}

/// The largest column and the largest row among the three points.
pub fn find_max(values: &Triangle2d) -> (r: Vec2i)
    ensures
        r.x == max3(values.point_1.x as int, values.point_2.x as int, values.point_3.x as int),
        r.y == max3(values.point_1.y as int, values.point_2.y as int, values.point_3.y as int),
{
    let mut max_x_val: i32 = values.point_1.x;
    let mut max_y_val: i32 = values.point_1.y;
    if values.point_2.x > max_x_val {
        max_x_val = values.point_2.x;
    }
    if values.point_2.y > max_y_val {
        max_y_val = values.point_2.y;
    }
    if values.point_3.x > max_x_val {
        max_x_val = values.point_3.x;
    }
    if values.point_3.y > max_y_val {
        max_y_val = values.point_3.y;
    }
    Vec2i { x: max_x_val, y: max_y_val }
}

/// The cross product of two vectors.
pub fn cross(vec1: Vec3f, vec2: Vec3f) -> (r: Vec3f)
    requires
        vec1@.cross(vec2@).fits_i64(),
    ensures
        r@ == vec1@.cross(vec2@),
{
    proof {
        lemma_i64_product(vec1.y, vec2.z);
        lemma_i64_product(vec1.z, vec2.y);
        lemma_i64_product(vec1.z, vec2.x);
        lemma_i64_product(vec1.x, vec2.z);
        lemma_i64_product(vec1.x, vec2.y);
        lemma_i64_product(vec1.y, vec2.x);
    }
    let x: i128 = vec1.y as i128 * vec2.z as i128 - vec1.z as i128 * vec2.y as i128;
    let y: i128 = vec1.z as i128 * vec2.x as i128 - vec1.x as i128 * vec2.z as i128;
    let z: i128 = vec1.x as i128 * vec2.y as i128 - vec1.y as i128 * vec2.x as i128;
    Vec3f { x: x as i64, y: y as i64, z: z as i64 }
}

/// The dot product of two vectors.
pub fn dot(vec1: Vec3f, vec2: Vec3f) -> (r: i64)
    requires
        i64::MIN <= vec1@.dot(vec2@) <= i64::MAX,
    ensures
        r == vec1@.dot(vec2@),
{
    proof {
        lemma_i64_product(vec1.x, vec2.x);
        lemma_i64_product(vec1.y, vec2.y);
        lemma_i64_product(vec1.z, vec2.z);
    }
    let xx: i128 = vec1.x as i128 * vec2.x as i128;
    let yy: i128 = vec1.y as i128 * vec2.y as i128;
    let zz: i128 = vec1.z as i128 * vec2.z as i128;
    let sum: i128 = xx + yy + zz;
    sum as i64
}

/// Barycentric weights as exact fractions: the weights of the three vertices
/// are `w1 / denom`, `w2 / denom` and `w3 / denom`.
pub struct WeightsView {
    pub w1: int,
    pub w2: int,
    pub w3: int,
    pub denom: int,
}

impl WeightsView {
    /// The denominator is positive and the three weights sum to one.
    pub open spec fn wf(self) -> bool {
        self.denom > 0 && self.w1 + self.w2 + self.w3 == self.denom
    }

    /// No weight is negative: the point lies in the triangle or on its boundary.
    pub open spec fn inside(self) -> bool {
        self.w1 >= 0 && self.w2 >= 0 && self.w3 >= 0
    }
}

/// Barycentric weights of a point, as computed by [`barycentric`].
#[derive(Clone, Copy, Debug, PartialEq, Eq, Structural)]
pub struct Weights {
    pub w1: i128,
    pub w2: i128,
    pub w3: i128,
    pub denom: i128,
}

impl View for Weights {
    type V = WeightsView;

    open spec fn view(&self) -> WeightsView {
        WeightsView {
            w1: self.w1 as int,
            w2: self.w2 as int,
            w3: self.w3 as int,
            denom: self.denom as int,
        }
    }
}

impl Weights {
    /// Whether the point lies in the triangle or on its boundary.
    pub fn is_inside(&self) -> (r: bool)
        ensures
            r == self@.inside(),
    {
        self.w1 >= 0 && self.w2 >= 0 && self.w3 >= 0
    }
}

/// The cross product from which the weights of the point `(px, py)` are read:
/// `(p3.x - p1.x, p2.x - p1.x, p1.x - px)` cross `(p3.y - p1.y, p2.y - p1.y, p1.y - py)`.
pub open spec fn edge_cross(t: Triangle2d, px: int, py: int) -> Vector3 {
    Vector3 {
        x: t.point_3.x - t.point_1.x,
        y: t.point_2.x - t.point_1.x,
        z: t.point_1.x - px,
    }.cross(
        Vector3 {
            x: t.point_3.y - t.point_1.y,
            y: t.point_2.y - t.point_1.y,
            z: t.point_1.y - py,
        },
    )
}

/// Twice the signed area of the triangle; zero when the points are collinear.
pub open spec fn doubled_area(t: Triangle2d) -> int {
    (t.point_3.x - t.point_1.x) * (t.point_2.y - t.point_1.y)
        - (t.point_2.x - t.point_1.x) * (t.point_3.y - t.point_1.y)
}

/// The triangle has no area: its three points are collinear.
pub open spec fn degenerate(t: Triangle2d) -> bool {
    doubled_area(t) == 0
}

/// The value that stands for the weights of every point of a degenerate
/// triangle: it has a negative component, so no point counts as inside.
pub open spec fn outside_weights() -> WeightsView {
    WeightsView { w1: -1, w2: 1, w3: 1, denom: 1 }
}

/// The barycentric weights of the point `(px, py)` with respect to `t`.
///
/// With `u = edge_cross(t, px, py)` the weights of `point_1`, `point_2` and
/// `point_3` are `1 - (u.x + u.y) / u.z`, `u.y / u.z` and `u.x / u.z`.  They are
/// given over the common denominator `|u.z|`.
pub open spec fn weights_at(t: Triangle2d, px: int, py: int) -> WeightsView {
    let u = edge_cross(t, px, py);
    if u.z == 0 {
        outside_weights()
    } else if u.z > 0 {
        WeightsView { w1: u.z - u.x - u.y, w2: u.y, w3: u.x, denom: u.z }
    } else {
        WeightsView { w1: u.x + u.y - u.z, w2: -u.y, w3: -u.x, denom: -u.z }
    }
}

/// The barycentric weights of `point` with respect to `triangle`, as exact
/// fractions; [`outside_weights`] for a degenerate triangle.
pub fn barycentric(triangle: &Triangle2d, point: Vec2i) -> (r: Weights)
    ensures
        r@ == weights_at(*triangle, point.x as int, point.y as int),
        r@.wf(),
        r@.denom <= 0x2_0000_0000_0000_0000,
{
    let ax: i128 = triangle.point_3.x as i128 - triangle.point_1.x as i128;
    let ay: i128 = triangle.point_2.x as i128 - triangle.point_1.x as i128;
    let az: i128 = triangle.point_1.x as i128 - point.x as i128;
    let bx: i128 = triangle.point_3.y as i128 - triangle.point_1.y as i128;
    let by: i128 = triangle.point_2.y as i128 - triangle.point_1.y as i128;
    let bz: i128 = triangle.point_1.y as i128 - point.y as i128;
    proof {
        lemma_mul_bound(ay as int, bz as int, 0x1_0000_0000, 0x1_0000_0000);
        lemma_mul_bound(az as int, by as int, 0x1_0000_0000, 0x1_0000_0000);
        lemma_mul_bound(az as int, bx as int, 0x1_0000_0000, 0x1_0000_0000);
        lemma_mul_bound(ax as int, bz as int, 0x1_0000_0000, 0x1_0000_0000);
        lemma_mul_bound(ax as int, by as int, 0x1_0000_0000, 0x1_0000_0000);
        lemma_mul_bound(ay as int, bx as int, 0x1_0000_0000, 0x1_0000_0000);
    }
    let ux: i128 = ay * bz - az * by;
    let uy: i128 = az * bx - ax * bz;
    let uz: i128 = ax * by - ay * bx;
    if uz == 0 {
        Weights { w1: -1, w2: 1, w3: 1, denom: 1 }
    } else if uz > 0 {
        Weights { w1: uz - ux - uy, w2: uy, w3: ux, denom: uz }
    } else {
        Weights { w1: ux + uy - uz, w2: -uy, w3: -ux, denom: -uz }
    }
}

/// Twice the signed area of the triangle `a`, `b`, `(px, py)`: positive when
/// the point lies on one side of the line from `a` to `b`, negative on the
/// other, zero on the line.
pub open spec fn orientation(a: Vec2i, b: Vec2i, px: int, py: int) -> int {
    (b.x - a.x) * (py - a.y) - (b.y - a.y) * (px - a.x)
}

/// The point lies on the inner side of each of the three edges, on none of them.
pub open spec fn strictly_inside(t: Triangle2d, px: int, py: int) -> bool {
    let turn = orientation(t.point_1, t.point_2, t.point_3.x as int, t.point_3.y as int);
    let e1 = orientation(t.point_1, t.point_2, px, py);
    let e2 = orientation(t.point_2, t.point_3, px, py);
    let e3 = orientation(t.point_3, t.point_1, px, py);
    (turn > 0 && e1 > 0 && e2 > 0 && e3 > 0) || (turn < 0 && e1 < 0 && e2 < 0 && e3 < 0)
}

/// The triangle has an area and the point lies on the outer side of one of its edges.
pub open spec fn strictly_outside(t: Triangle2d, px: int, py: int) -> bool {
    let turn = orientation(t.point_1, t.point_2, t.point_3.x as int, t.point_3.y as int);
    let e1 = orientation(t.point_1, t.point_2, px, py);
    let e2 = orientation(t.point_2, t.point_3, px, py);
    let e3 = orientation(t.point_3, t.point_1, px, py);
    (turn > 0 && (e1 < 0 || e2 < 0 || e3 < 0)) || (turn < 0 && (e1 > 0 || e2 > 0 || e3 > 0))
}

/// The weights of any point with respect to any triangle, degenerate or not,
/// sum to one: the numerators sum to the denominator, which is positive.
pub proof fn lemma_weights_sum_to_one(t: Triangle2d, px: int, py: int)
    ensures
        weights_at(t, px, py).wf(),
        weights_at(t, px, py).w1 + weights_at(t, px, py).w2 + weights_at(t, px, py).w3
            == weights_at(t, px, py).denom,
{
}

/// Each weight is the ratio of two signed areas: the numerators of a
/// non-degenerate triangle are the three edge orientations of the point, taken
/// with the sign that makes the denominator positive.
pub proof fn lemma_weights_are_orientations(t: Triangle2d, px: int, py: int)
    requires
        !degenerate(t),
    ensures
        ({
            let w = weights_at(t, px, py);
            let turn = orientation(t.point_1, t.point_2, t.point_3.x as int, t.point_3.y as int);
            let e1 = orientation(t.point_1, t.point_2, px, py);
            let e2 = orientation(t.point_2, t.point_3, px, py);
            let e3 = orientation(t.point_3, t.point_1, px, py);
            &&& turn == -doubled_area(t)
            &&& turn > 0 ==> w.denom == turn && w.w1 == e2 && w.w2 == e3 && w.w3 == e1
            &&& turn < 0 ==> w.denom == -turn && w.w1 == -e2 && w.w2 == -e3 && w.w3 == -e1
        }),
{
    let x1 = t.point_1.x as int;
    let y1 = t.point_1.y as int;
    let x2 = t.point_2.x as int;
    let y2 = t.point_2.y as int;
    let x3 = t.point_3.x as int;
    let y3 = t.point_3.y as int;
    let u = edge_cross(t, px, py);
    let turn = orientation(t.point_1, t.point_2, x3, y3);
    let e1 = orientation(t.point_1, t.point_2, px, py);
    let e2 = orientation(t.point_2, t.point_3, px, py);
    let e3 = orientation(t.point_3, t.point_1, px, py);
    assert(u.z == -turn) by (nonlinear_arith)
        requires
            u.z == (x3 - x1) * (y2 - y1) - (x2 - x1) * (y3 - y1),
            turn == (x2 - x1) * (y3 - y1) - (y2 - y1) * (x3 - x1),
    ;
    assert(u.x == -e1) by (nonlinear_arith)
        requires
            u.x == (x2 - x1) * (y1 - py) - (x1 - px) * (y2 - y1),
            e1 == (x2 - x1) * (py - y1) - (y2 - y1) * (px - x1),
    ;
    assert(u.y == -e3) by (nonlinear_arith)
        requires
            u.y == (x1 - px) * (y3 - y1) - (x3 - x1) * (y1 - py),
            e3 == (x1 - x3) * (py - y3) - (y1 - y3) * (px - x3),
    ;
    assert(u.z - u.x - u.y == -e2) by (nonlinear_arith)
        requires
            u.z == (x3 - x1) * (y2 - y1) - (x2 - x1) * (y3 - y1),
            u.x == (x2 - x1) * (y1 - py) - (x1 - px) * (y2 - y1),
            u.y == (x1 - px) * (y3 - y1) - (x3 - x1) * (y1 - py),
            e2 == (x3 - x2) * (py - y2) - (y3 - y2) * (px - x2),
    ;
}

/// A point strictly inside a non-degenerate triangle has three positive weights.
pub proof fn lemma_interior_weights_positive(t: Triangle2d, px: int, py: int)
    requires
        strictly_inside(t, px, py),
    ensures
        weights_at(t, px, py).w1 > 0,
        weights_at(t, px, py).w2 > 0,
        weights_at(t, px, py).w3 > 0,
{
    lemma_orientation_of_degenerate(t);
    lemma_weights_are_orientations(t, px, py);
}

/// A point strictly outside a non-degenerate triangle has a negative weight.
pub proof fn lemma_exterior_weight_negative(t: Triangle2d, px: int, py: int)
    requires
        strictly_outside(t, px, py),
    ensures
        weights_at(t, px, py).w1 < 0 || weights_at(t, px, py).w2 < 0 || weights_at(t, px, py).w3
            < 0,
        !weights_at(t, px, py).inside(),
{
    lemma_orientation_of_degenerate(t);
    lemma_weights_are_orientations(t, px, py);
}

/// The orientation of the third point against the first edge is the negated
/// doubled area, so it vanishes exactly for a degenerate triangle.
pub proof fn lemma_orientation_of_degenerate(t: Triangle2d)
    ensures
        orientation(t.point_1, t.point_2, t.point_3.x as int, t.point_3.y as int) == -doubled_area(
            t,
        ),
{
    let x1 = t.point_1.x as int;
    let y1 = t.point_1.y as int;
    let x2 = t.point_2.x as int;
    let y2 = t.point_2.y as int;
    let x3 = t.point_3.x as int;
    let y3 = t.point_3.y as int;
    let area = (x3 - x1) * (y2 - y1) - (x2 - x1) * (y3 - y1);
    assert((x2 - x1) * (y3 - y1) - (y2 - y1) * (x3 - x1) == -area) by (nonlinear_arith)
        requires
            area == (x3 - x1) * (y2 - y1) - (x2 - x1) * (y3 - y1),
    ;
}

/// `(e*d - b*f)*a + (a*f - e*c)*b == -(b*c - a*d)*e`: the identity behind
/// [`lemma_weights_reproduce_point`].
proof fn lemma_cross_identity(a: int, b: int, c: int, d: int, e: int, f: int)
    ensures
        (e * d - b * f) * a + (a * f - e * c) * b == -((b * c - a * d) * e),
{
    assert((e * d - b * f) * a == e * d * a - b * f * a) by (nonlinear_arith);
    assert((a * f - e * c) * b == a * f * b - e * c * b) by (nonlinear_arith);
    assert((b * c - a * d) * e == b * c * e - a * d * e) by (nonlinear_arith);
    assert(b * f * a == a * f * b) by (nonlinear_arith);
    assert(e * d * a == a * d * e) by (nonlinear_arith);
    assert(e * c * b == b * c * e) by (nonlinear_arith);
}

/// `(n - p - q) * v1 + q * v2 + p * v3 == n * v1 + q * (v2 - v1) + p * (v3 - v1)`.
proof fn lemma_regroup(n: int, p: int, q: int, v1: int, v2: int, v3: int)
    ensures
        (n - p - q) * v1 + q * v2 + p * v3 == n * v1 + q * (v2 - v1) + p * (v3 - v1),
{
    assert((n - p - q) * v1 == n * v1 - p * v1 - q * v1) by (nonlinear_arith);
    assert(q * (v2 - v1) == q * v2 - q * v1) by (nonlinear_arith);
    assert(p * (v3 - v1) == p * v3 - p * v1) by (nonlinear_arith);
}

/// The weights of a non-degenerate triangle express the point as a combination
/// of the vertices: `w1 * p1 + w2 * p2 + w3 * p3 == denom * p`, in each coordinate.
pub proof fn lemma_weights_reproduce_point(t: Triangle2d, px: int, py: int)
    requires
        !degenerate(t),
    ensures
        ({
            let w = weights_at(t, px, py);
            &&& w.w1 * t.point_1.x + w.w2 * t.point_2.x + w.w3 * t.point_3.x == w.denom * px
            &&& w.w1 * t.point_1.y + w.w2 * t.point_2.y + w.w3 * t.point_3.y == w.denom * py
        }),
{
    let x1 = t.point_1.x as int;
    let y1 = t.point_1.y as int;
    let x2 = t.point_2.x as int;
    let y2 = t.point_2.y as int;
    let x3 = t.point_3.x as int;
    let y3 = t.point_3.y as int;
    let a = x2 - x1;
    let b = x3 - x1;
    let c = y2 - y1;
    let d = y3 - y1;
    let e = x1 - px;
    let f = y1 - py;
    let u = edge_cross(t, px, py);
    assert(u.x == a * f - e * c);
    assert(u.y == e * d - b * f);
    assert(u.z == b * c - a * d);
    // the column
    lemma_cross_identity(a, b, c, d, e, f);
    lemma_regroup(u.z, u.x, u.y, x1, x2, x3);
    assert(u.z * px == u.z * x1 - u.z * e) by (nonlinear_arith)
        requires
            e == x1 - px,
    ;
    let sx = (u.z - u.x - u.y) * x1 + u.y * x2 + u.x * x3;
    assert(sx == u.z * px);
    // the row
    lemma_cross_identity(c, d, -a, -b, f, -e);
    assert((f * (-b) - d * (-e)) == u.y) by (nonlinear_arith)
        requires
            u.y == e * d - b * f,
    ;
    assert((c * (-e) - f * (-a)) == u.x) by (nonlinear_arith)
        requires
            u.x == a * f - e * c,
    ;
    assert((d * (-a) - c * (-b)) == u.z) by (nonlinear_arith)
        requires
            u.z == b * c - a * d,
    ;
    lemma_regroup(u.z, u.x, u.y, y1, y2, y3);
    assert(u.z * py == u.z * y1 - u.z * f) by (nonlinear_arith)
        requires
            f == y1 - py,
    ;
    let sy = (u.z - u.x - u.y) * y1 + u.y * y2 + u.x * y3;
    assert(sy == u.z * py);
    if u.z < 0 {
        assert((u.x + u.y - u.z) * x1 + (-u.y) * x2 + (-u.x) * x3 == -sx) by (nonlinear_arith)
            requires
                sx == (u.z - u.x - u.y) * x1 + u.y * x2 + u.x * x3,
        ;
        assert((u.x + u.y - u.z) * y1 + (-u.y) * y2 + (-u.x) * y3 == -sy) by (nonlinear_arith)
            requires
                sy == (u.z - u.x - u.y) * y1 + u.y * y2 + u.x * y3,
        ;
        assert((-u.z) * px == -(u.z * px)) by (nonlinear_arith);
        assert((-u.z) * py == -(u.z * py)) by (nonlinear_arith);
    }
}

/// A weighted mean with non-negative weights lies between the smallest and the
/// largest of the three values.
proof fn lemma_mean_between(w1: int, w2: int, w3: int, d: int, v1: int, v2: int, v3: int, p: int)
    requires
        w1 >= 0,
        w2 >= 0,
        w3 >= 0,
        d > 0,
        w1 + w2 + w3 == d,
        w1 * v1 + w2 * v2 + w3 * v3 == d * p,
    ensures
        min3(v1, v2, v3) <= p <= max3(v1, v2, v3),
{
    let lo = min3(v1, v2, v3);
    let hi = max3(v1, v2, v3);
    lemma_weighted_gap(w1, v1, lo);
    lemma_weighted_gap(w2, v2, lo);
    lemma_weighted_gap(w3, v3, lo);
    lemma_weighted_gap(w1, hi, v1);
    lemma_weighted_gap(w2, hi, v2);
    lemma_weighted_gap(w3, hi, v3);
    assert(d * lo == w1 * lo + w2 * lo + w3 * lo) by (nonlinear_arith)
        requires
            w1 + w2 + w3 == d,
    ;
    assert(d * hi == w1 * hi + w2 * hi + w3 * hi) by (nonlinear_arith)
        requires
            w1 + w2 + w3 == d,
    ;
    assert(d * lo <= d * p <= d * hi);
    assert(lo <= p <= hi) by (nonlinear_arith)
        requires
            d > 0,
            d * lo <= d * p <= d * hi,
    ;
}

/// A non-negative weight times a non-negative gap `v - lo` is non-negative.
proof fn lemma_weighted_gap(w: int, v: int, lo: int)
    by (nonlinear_arith)
    requires
        w >= 0,
        v >= lo,
    ensures
        w * v >= w * lo,
{
}

/// A point that counts as inside lies within the bounding rectangle of the triangle.
pub proof fn lemma_inside_within_bounds(t: Triangle2d, px: int, py: int)
    requires
        weights_at(t, px, py).inside(),
    ensures
        !degenerate(t),
        min3(t.point_1.x as int, t.point_2.x as int, t.point_3.x as int) <= px <= max3(
            t.point_1.x as int,
            t.point_2.x as int,
            t.point_3.x as int,
        ),
        min3(t.point_1.y as int, t.point_2.y as int, t.point_3.y as int) <= py <= max3(
            t.point_1.y as int,
            t.point_2.y as int,
            t.point_3.y as int,
        ),
{
    let w = weights_at(t, px, py);
    lemma_weights_reproduce_point(t, px, py);
    lemma_mean_between(
        w.w1,
        w.w2,
        w.w3,
        w.denom,
        t.point_1.x as int,
        t.point_2.x as int,
        t.point_3.x as int,
        px,
    );
    lemma_mean_between(
        w.w1,
        w.w2,
        w.w3,
        w.denom,
        t.point_1.y as int,
        t.point_2.y as int,
        t.point_3.y as int,
        py,
    );
}

} // verus!
