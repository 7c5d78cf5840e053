//! Integer matrices in row-major order, and the conversion between a vector
//! and its homogeneous column.

use crate::arith::{lemma_i64_product, lemma_mul_bound, lemma_trunc_div_bounds, trunc_div};
use crate::math::{Vec3f, UNIT};
use vstd::prelude::*;

verus! {

/// A matrix of `rows` by `cols` integers, stored row by row.
///
/// The entries are plain integers, not fixed-point numbers: the one of
/// [`Matrix::identity`] is the integer 1, and [`Matrix::mul`] multiplies
/// exactly and does not rescale.  A transform with fractional entries is
/// written with all its entries times a common factor; the factor cancels
/// when [`Matrix::to_vec`] divides by the last component.  Only the column
/// of a vector carries the fixed-point scale: [`Vec3f::to_matrix`] writes
/// `UNIT` for its last component, so that the column of a vector stands for
/// that vector.
///
/// A matrix holds eight bytes per entry, and a vector holds at most
/// `isize::MAX` bytes: that is the bound on the shape in the contracts below.
pub struct Matrix {
    pub rows: usize,
    pub cols: usize,
    pub data: Vec<i64>,
}

/// The mathematical content of a [`Matrix`]: its shape and its entries, row by row.
pub struct MatrixView {
    pub rows: nat,
    pub cols: nat,
    pub entries: Seq<i64>,
}

impl View for Matrix {
    type V = MatrixView;

    open spec fn view(&self) -> MatrixView {
        MatrixView { rows: self.rows as nat, cols: self.cols as nat, entries: self.data@ }
    }
}

/// A position of the grid before `(i, j)` in row-major order.
pub open spec fn precedes(ii: int, jj: int, i: int, j: int) -> bool {
    ii < i || (ii == i && jj < j)
}

/// In a grid of `cols` columns, an earlier position has a smaller index.
pub proof fn lemma_row_major_order(cols: int, ii: int, jj: int, i: int, j: int)
    by (nonlinear_arith)
    requires
        0 <= ii,
        0 <= jj < cols,
        0 <= j <= cols,
        0 <= i,
        precedes(ii, jj, i, j),
    ensures
        0 <= ii * cols + jj < i * cols + j,
{
    if ii < i {
        assert((ii + 1) * cols <= i * cols);
    }
}

/// The quotient `a / b` rounded toward zero, for a divisor of either sign.
pub open spec fn signed_quotient(a: int, b: int) -> int
    recommends
        b != 0,
{
    if b > 0 {
        trunc_div(a, b)
    } else {
        trunc_div(-a, -b)
    }
}

impl Matrix {
    /// The entries in row-major order.
    pub open spec fn entries(self) -> Seq<i64> {
        self@.entries
    }

    /// There is one entry for each of the `rows * cols` positions.
    pub open spec fn wf(self) -> bool {
        self.entries().len() == self.rows * self.cols
    }

    /// The entry in row `i`, column `j`.
    pub open spec fn at(self, i: int, j: int) -> int {
        self.entries()[i * self.cols + j] as int
    }

    /// The sum of the first `n` products of row `i` of `self` with column `j` of `rhs`.
    pub open spec fn dot_prefix(self, rhs: Matrix, i: int, j: int, n: int) -> int
        decreases n,
    {
        if n <= 0 {
            0
        } else {
            self.dot_prefix(rhs, i, j, n - 1) + self.at(i, n - 1) * rhs.at(n - 1, j)
        }
    }

    /// The product `self * rhs` can be computed in `i64`: the shapes agree and
    /// every partial sum of every entry is an `i64` value.
    pub open spec fn multiplies(self, rhs: Matrix) -> bool {
        &&& self.wf()
        &&& rhs.wf()
        &&& self.cols == rhs.rows
        &&& 8 * (self.rows * rhs.cols) <= isize::MAX
        &&& forall|i: int, j: int, n: int|
            0 <= i < self.rows && 0 <= j < rhs.cols && 0 <= n <= self.cols ==> i64::MIN
                <= #[trigger] self.dot_prefix(rhs, i, j, n) <= i64::MAX
    }

    /// The matrix of the given shape with every entry zero.
    pub fn new(rows: usize, cols: usize) -> (r: Matrix)
        requires
            8 * (rows * cols) <= isize::MAX,
        ensures
            r.wf(),
            r@ == (MatrixView {
                rows: rows as nat,
                cols: cols as nat,
                entries: Seq::new((rows * cols) as nat, |k: int| 0i64),
            }),
    {
        let data: Vec<i64> = vec![0; rows * cols];
        assert(data@ =~= Seq::new((rows * cols) as nat, |k: int| 0i64));
        Matrix { rows, cols, data }
    }

    /// The entry in row `i`, column `j`.
    pub fn get(&self, i: usize, j: usize) -> (r: i64)
        requires
            self.wf(),
            i < self.rows,
            j < self.cols,
        ensures
            r == self.at(i as int, j as int),
    {
        proof {
            lemma_row_major_order(self.cols as int, i as int, j as int, self.rows as int, 0);
        }
        let len: usize = self.data.len();
        self.data[i * self.cols + j]
    }

    /// Replaces the entry in row `i`, column `j` by `value`.
    pub fn set(&mut self, i: usize, j: usize, value: i64)
        requires
            old(self).wf(),
            i < old(self).rows,
            j < old(self).cols,
        ensures
            final(self).wf(),
            final(self)@ == (MatrixView {
                rows: old(self)@.rows,
                cols: old(self)@.cols,
                entries: old(self)@.entries.update(i * old(self).cols + j, value),
            }),
            final(self).at(i as int, j as int) == value,
    {
        proof {
            lemma_row_major_order(self.cols as int, i as int, j as int, self.rows as int, 0);
        }
        let len: usize = self.data.len();
        let index: usize = i * self.cols + j;
        self.data.set(index, value);
    }

    /// The matrix of the given shape that is one on the diagonal and zero elsewhere.
    fn diagonal(rows: usize, cols: usize) -> (r: Matrix)
        requires
            8 * (rows * cols) <= isize::MAX,
        ensures
            r.wf(),
            r.rows == rows,
            r.cols == cols,
            forall|i: int, j: int|
                0 <= i < rows && 0 <= j < cols ==> #[trigger] r.at(i, j) == (if i == j {
                    1int
                } else {
                    0int
                }),
    {
        let mut data: Vec<i64> = Vec::new();
        let mut i: usize = 0;
        while i < rows
            invariant
                i <= rows,
                rows * cols <= usize::MAX,
                data@.len() == i * cols,
                forall|ii: int, jj: int|
                    0 <= ii < i && 0 <= jj < cols ==> #[trigger] data@[ii * cols + jj] == (if ii
                        == jj {
                        1i64
                    } else {
                        0i64
                    }),
            decreases rows - i,
        {
            let mut j: usize = 0;
            while j < cols
                invariant
                    i < rows,
                    j <= cols,
                    rows * cols <= usize::MAX,
                    data@.len() == i * cols + j,
                    forall|ii: int, jj: int|
                        0 <= ii && 0 <= jj < cols && precedes(ii, jj, i as int, j as int)
                            ==> #[trigger] data@[ii * cols + jj] == (if ii == jj {
                            1i64
                        } else {
                            0i64
                        }),
                decreases cols - j,
            {
                let ghost before = data@;
                let value: i64 = if i == j {
                    1
                } else {
                    0
                };
                data.push(value);
                proof {
                    assert forall|ii: int, jj: int|
                        0 <= ii && 0 <= jj < cols && precedes(
                            ii,
                            jj,
                            i as int,
                            j as int + 1,
                        ) implies #[trigger] data@[ii * cols + jj] == (if ii == jj {
                            1i64
                        } else {
                            0i64
                        }) by {
                        if precedes(ii, jj, i as int, j as int) {
                            lemma_row_major_order(cols as int, ii, jj, i as int, j as int);
                            assert(data@[ii * cols + jj] == before[ii * cols + jj]);
                        }
                    }
                }
                j = j + 1;
            }
            proof {
                assert((i + 1) * cols == i * cols + cols) by (nonlinear_arith);
            }
            i = i + 1;
        }
        Matrix { rows, cols, data }
    }

    /// The identity matrix of the given size.
    pub fn identity(size: usize) -> (r: Matrix)
        requires
            8 * (size * size) <= isize::MAX,
        ensures
            r.wf(),
            r.rows == size,
            r.cols == size,
            forall|i: int, j: int|
                0 <= i < size && 0 <= j < size ==> #[trigger] r.at(i, j) == (if i == j {
                    1int
                } else {
                    0int
                }),
    {
        Matrix::diagonal(size, size)
    }

    /// Row `i` of `self` times column `j` of `rhs`.
    fn entry_product(&self, rhs: &Matrix, i: usize, j: usize) -> (r: i64)
        requires
            self.multiplies(*rhs),
            i < self.rows,
            j < rhs.cols,
        ensures
            r == self.dot_prefix(*rhs, i as int, j as int, self.cols as int),
    {
        let mut sum: i64 = 0;
        let mut k: usize = 0;
        while k < self.cols
            invariant
                self.multiplies(*rhs),
                i < self.rows,
                j < rhs.cols,
                k <= self.cols,
                sum == self.dot_prefix(*rhs, i as int, j as int, k as int),
            decreases self.cols - k,
        {
            let a: i64 = self.get(i, k);
            let b: i64 = rhs.get(k, j);
            proof {
                lemma_i64_product(a, b);
                assert(self.dot_prefix(*rhs, i as int, j as int, k as int + 1) == sum + a * b);
            }
            let wide: i128 = sum as i128 + a as i128 * b as i128;
            sum = wide as i64;
            k = k + 1;
        }
        sum
    }

    /// The matrix product `self * rhs`.
    pub fn mul(&self, rhs: &Matrix) -> (r: Matrix)
        requires
            self.multiplies(*rhs),
        ensures
            r.wf(),
            r.rows == self.rows,
            r.cols == rhs.cols,
            forall|i: int, j: int|
                0 <= i < self.rows && 0 <= j < rhs.cols ==> #[trigger] r.at(i, j)
                    == self.dot_prefix(*rhs, i, j, self.cols as int),
    {
        let rows: usize = self.rows;
        let cols: usize = rhs.cols;
        let mut data: Vec<i64> = Vec::new();
        let mut i: usize = 0;
        while i < rows
            invariant
                self.multiplies(*rhs),
                rows == self.rows,
                cols == rhs.cols,
                i <= rows,
                data@.len() == i * cols,
                forall|ii: int, jj: int|
                    0 <= ii < i && 0 <= jj < cols ==> #[trigger] data@[ii * cols + jj]
                        == self.dot_prefix(*rhs, ii, jj, self.cols as int),
            decreases rows - i,
        {
            let mut j: usize = 0;
            while j < cols
                invariant
                    self.multiplies(*rhs),
                    rows == self.rows,
                    cols == rhs.cols,
                    i < rows,
                    j <= cols,
                    data@.len() == i * cols + j,
                    forall|ii: int, jj: int|
                        0 <= ii && 0 <= jj < cols && precedes(ii, jj, i as int, j as int)
                            ==> #[trigger] data@[ii * cols + jj] == self.dot_prefix(
                            *rhs,
                            ii,
                            jj,
                            self.cols as int,
                        ),
                decreases cols - j,
            {
                let ghost before = data@;
                let value: i64 = self.entry_product(rhs, i, j);
                data.push(value);
                proof {
                    assert forall|ii: int, jj: int|
                        0 <= ii && 0 <= jj < cols && precedes(
                            ii,
                            jj,
                            i as int,
                            j as int + 1,
                        ) implies #[trigger] data@[ii * cols + jj] == self.dot_prefix(
                        *rhs,
                        ii,
                        jj,
                        self.cols as int,
                    ) by {
                        if precedes(ii, jj, i as int, j as int) {
                            lemma_row_major_order(cols as int, ii, jj, i as int, j as int);
                            assert(data@[ii * cols + jj] == before[ii * cols + jj]);
                        }
                    }
                }
                j = j + 1;
            }
            proof {
                assert((i + 1) * cols == i * cols + cols) by (nonlinear_arith);
            }
            i = i + 1;
        }
        Matrix { rows, cols, data }
    }

    /// The point that the homogeneous column `(x, y, z, w)` stands for:
    /// `(x / w, y / w, z / w)`, each quotient rounded toward zero.  `None` when
    /// the matrix has fewer than four rows or no column, when `w` is zero, or
    /// when a quotient is no `i64` value.
    pub fn to_vec(&self) -> (r: Option<Vec3f>)
        requires
            self.wf(),
        ensures
            r is Some <==> {
                &&& self.rows >= 4
                &&& self.cols >= 1
                &&& self.at(3, 0) != 0
                &&& i64::MIN <= signed_quotient(self.at(0, 0) * UNIT, self.at(3, 0)) <= i64::MAX
                &&& i64::MIN <= signed_quotient(self.at(1, 0) * UNIT, self.at(3, 0)) <= i64::MAX
                &&& i64::MIN <= signed_quotient(self.at(2, 0) * UNIT, self.at(3, 0)) <= i64::MAX
            },
            r matches Some(v) ==> {
                &&& v.x == signed_quotient(self.at(0, 0) * UNIT, self.at(3, 0))
                &&& v.y == signed_quotient(self.at(1, 0) * UNIT, self.at(3, 0))
                &&& v.z == signed_quotient(self.at(2, 0) * UNIT, self.at(3, 0))
            },
    {
        if self.rows < 4 || self.cols < 1 {
            return None;
        }
        let w: i64 = self.get(3, 0);
        if w == 0 {
            return None;
        }
        let x: i128 = divide_homogeneous(self.get(0, 0), w);
        let y: i128 = divide_homogeneous(self.get(1, 0), w);
        let z: i128 = divide_homogeneous(self.get(2, 0), w);
        let low: i128 = i64::MIN as i128;
        let high: i128 = i64::MAX as i128;
        if x < low || x > high || y < low || y > high || z < low || z > high {
            return None;
        }
        Some(Vec3f { x: x as i64, y: y as i64, z: z as i64 })
    }
}

/// `c * UNIT / w`, rounded toward zero.
fn divide_homogeneous(c: i64, w: i64) -> (r: i128)
    requires
        w != 0,
    ensures
        r == signed_quotient(c * UNIT, w as int),
{
    proof {
        lemma_mul_bound(c as int, UNIT as int, 0x8000_0000_0000_0000, UNIT as int);
    }
    let scaled: i128 = c as i128 * UNIT as i128;
    proof {
        if w > 0 {
            lemma_trunc_div_bounds(scaled as int, w as int);
        } else {
            lemma_trunc_div_bounds(-scaled as int, -w as int);
        }
    }
    if w > 0 {
        scaled / w as i128
    } else {
        (-scaled) / (-(w as i128))
    }
}

impl Vec3f {
    /// The homogeneous column `(x, y, z, 1)` of the vector.
    pub fn to_matrix(&self) -> (r: Matrix)
        ensures
            r.wf(),
            r@ == (MatrixView { rows: 4, cols: 1, entries: seq![self.x, self.y, self.z, UNIT] }),
            r.at(0, 0) == self.x,
            r.at(1, 0) == self.y,
            r.at(2, 0) == self.z,
            r.at(3, 0) == UNIT,
    {
        let mut data: Vec<i64> = Vec::new();
        data.push(self.x);
        data.push(self.y);
        data.push(self.z);
        data.push(UNIT);
        assert(data@ =~= seq![self.x, self.y, self.z, UNIT]);
        let r = Matrix { rows: 4, cols: 1, data };
        assert(r.rows * r.cols == 4) by (nonlinear_arith)
            requires
                r.rows == 4,
                r.cols == 1,
        ;
        r
    }
}

/// Dividing a multiple of a positive divisor gives the factor back.
proof fn lemma_quotient_of_multiple(c: int, d: int)
    requires
        d > 0,
    ensures
        signed_quotient(c * d, d) == c,
{
    if c >= 0 {
        assert(c * d >= 0) by (nonlinear_arith)
            requires
                c >= 0,
                d > 0,
        ;
        assert(c * d < (c + 1) * d) by (nonlinear_arith)
            requires
                d > 0,
        ;
        crate::arith::lemma_floor_div_unique(c * d, d, c);
    } else {
        assert(c * d < 0) by (nonlinear_arith)
            requires
                c < 0,
                d > 0,
        ;
        assert(-(c * d) == (-c) * d) by (nonlinear_arith);
        assert((-c) * d < (-c + 1) * d) by (nonlinear_arith)
            requires
                d > 0,
        ;
        crate::arith::lemma_floor_div_unique((-c) * d, d, -c);
    }
}

/// The homogeneous column of a vector stands for that vector: a matrix with
/// the entries that [`Vec3f::to_matrix`] gives is turned back into `v` by
/// [`Matrix::to_vec`].
pub proof fn lemma_column_round_trip(m: Matrix, v: Vec3f)
    requires
        m.at(0, 0) == v.x,
        m.at(1, 0) == v.y,
        m.at(2, 0) == v.z,
        m.at(3, 0) == UNIT,
    ensures
        signed_quotient(m.at(0, 0) * UNIT, m.at(3, 0)) == v.x,
        signed_quotient(m.at(1, 0) * UNIT, m.at(3, 0)) == v.y,
        signed_quotient(m.at(2, 0) * UNIT, m.at(3, 0)) == v.z,
{
    lemma_quotient_of_multiple(v.x as int, UNIT as int);
    lemma_quotient_of_multiple(v.y as int, UNIT as int);
    lemma_quotient_of_multiple(v.z as int, UNIT as int);
}

} // verus!
