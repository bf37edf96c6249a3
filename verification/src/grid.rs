//! A dense two-dimensional table over one contiguous allocation, addressed
//! by a (row, column) pair in row-major order. It centralizes the 2D
//! indexing arithmetic used by the dynamic-programming tables of both
//! distance algorithms.

use vstd::prelude::*;

verus! {

/// A rectangular table of `x_size` rows by `y_size` columns, backed by a
/// single `Vec` of length `x_size * y_size`; the cell `(i, j)` lives at
/// linear index `i * y_size + j`.
pub struct N2Array<T> {
    x_size: usize,
    y_size: usize,
    buf: Vec<T>,
}

impl<T: Copy> N2Array<T> {
    /// The number of rows.
    pub closed spec fn rows(&self) -> int {
        self.x_size as int
    }

    /// The number of columns.
    pub closed spec fn cols(&self) -> int {
        self.y_size as int
    }

    /// The backing storage holds exactly one cell for each coordinate.
    pub closed spec fn wf(&self) -> bool {
        self.buf@.len() == self.x_size * self.y_size
    }

    /// The value of the cell at row `i`, column `j`.
    pub closed spec fn cell(&self, i: int, j: int) -> T
        recommends
            self.wf(),
            0 <= i < self.rows(),
            0 <= j < self.cols(),
    {
        self.buf@[i * self.y_size + j]
    }

    /// Allocates an `x` by `y` table with every cell set to `value`.
    pub fn new(x: usize, y: usize, value: T) -> (r: N2Array<T>)
        requires
            x * y <= usize::MAX,
        ensures
            r.wf(),
            r.rows() == x,
            r.cols() == y,
            forall|i: int, j: int|
                0 <= i < x && 0 <= j < y ==> r.cell(i, j) == value,
    {
        let total = x * y;
        let mut buf: Vec<T> = Vec::new();
        while buf.len() < total
            invariant
                buf@.len() <= total,
                forall|k: int| 0 <= k < buf@.len() ==> buf@[k] == value,
            decreases total - buf@.len(),
        {
            buf.push(value);
        }
        let r = N2Array { x_size: x, y_size: y, buf };
        proof {
            assert forall|i: int, j: int|
                0 <= i < x && 0 <= j < y implies r.cell(i, j) == value by {
                assert(0 <= i * y + j < x * y) by (nonlinear_arith)
                    requires
                        0 <= i < x,
                        0 <= j < y,
                ;
            }
        }
        r
    }

    /// Reads the cell at row `i`, column `j`.
    pub fn get(&self, i: usize, j: usize) -> (r: T)
        requires
            self.wf(),
            i < self.rows(),
            j < self.cols(),
        ensures
            r == self.cell(i as int, j as int),
    {
        proof {
            vstd::std_specs::vec::axiom_spec_len(&self.buf);
            assert(i * self.y_size + j < self.x_size * self.y_size) by (nonlinear_arith)
                requires
                    i < self.x_size,
                    j < self.y_size,
            ;
        }
        self.buf[i * self.y_size + j]
    }

    /// Writes `value` into the cell at row `i`, column `j`; every other
    /// cell keeps its value.
    pub fn set(&mut self, i: usize, j: usize, value: T)
        requires
            old(self).wf(),
            i < old(self).rows(),
            j < old(self).cols(),
        ensures
            final(self).wf(),
            final(self).rows() == old(self).rows(),
            final(self).cols() == old(self).cols(),
            final(self).cell(i as int, j as int) == value,
            forall|a: int, b: int|
                0 <= a < old(self).rows() && 0 <= b < old(self).cols() && !(a == i && b == j)
                    ==> final(self).cell(a, b) == old(self).cell(a, b),
    {
        proof {
            vstd::std_specs::vec::axiom_spec_len(&self.buf);
            assert(i * self.y_size + j < self.x_size * self.y_size) by (nonlinear_arith)
                requires
                    i < self.x_size,
                    j < self.y_size,
            ;
        }
        let idx = i * self.y_size + j;
        self.buf[idx] = value;
        proof {
            assert forall|a: int, b: int|
                0 <= a < self.rows() && 0 <= b < self.cols() && !(a == i && b == j)
                    implies self.cell(a, b) == old(self).cell(a, b) by {
                assert(a * self.y_size + b != i * self.y_size + j) by (nonlinear_arith)
                    requires
                        0 <= a < self.x_size,
                        0 <= b < self.y_size,
                        0 <= i < self.x_size,
                        0 <= j < self.y_size,
                        !(a == i && b == j),
                ;
                assert(0 <= a * self.y_size + b < self.x_size * self.y_size) by (nonlinear_arith)
                    requires
                        0 <= a < self.x_size,
                        0 <= b < self.y_size,
                ;
            }
        }
    }
}

} // verus!
