//! A dense, row-major matrix of integers in one flat buffer.

use vstd::prelude::*;

verus! {

/// A `width × height` matrix of `i32` cells stored row by row in a single
/// buffer. The cell at column `x` of row `y` lives at `y * width + x`.
pub struct Grid {
    width: usize,
    height: usize,
    cells: Vec<i32>,
}

/// The flat position of cell `(x, y)` in a row-major buffer of the given width.
pub open spec fn flat_index(width: nat, x: int, y: int) -> int {
    y * width + x
}

/// A cell inside a `width × height` matrix has a flat position inside the buffer.
pub proof fn lemma_flat_index_in_bounds(width: nat, height: nat, x: int, y: int)
    requires
        0 <= x < width,
        0 <= y < height,
    ensures
        0 <= y * width <= flat_index(width, x, y) < width * height,
{
    assert(y * width + x < (y + 1) * width) by (nonlinear_arith)
        requires
            0 <= x < width,
    ;
    assert((y + 1) * width <= height * width) by (nonlinear_arith)
        requires
            0 <= y < height,
            0 <= width,
    ;
    assert(0 <= y * width) by (nonlinear_arith)
        requires
            0 <= y,
            0 <= width,
    ;
    assert(height * width == width * height) by (nonlinear_arith);
}

impl Grid {
    #[verifier::type_invariant]
    spec fn inv(self) -> bool {
        self.cells@.len() == self.width * self.height
    }

    /// Number of columns.
    pub closed spec fn cols(&self) -> nat {
        self.width as nat
    }

    /// Number of rows.
    pub closed spec fn rows(&self) -> nat {
        self.height as nat
    }

    /// The value of cell `(x, y)`; meaningful for `x < cols()` and `y < rows()`.
    pub closed spec fn at(&self, x: int, y: int) -> i32 {
        self.cells@[flat_index(self.width as nat, x, y)]
    }

    /// A matrix with every cell equal to `value`, or `None` when the four
    /// bytes of each of `width * height` cells exceed `isize::MAX`, the most
    /// that one allocation can hold.
    pub fn filled(width: usize, height: usize, value: i32) -> (out: Option<Grid>)
        ensures
            out is Some <==> 4 * (width * height) <= isize::MAX,
            out matches Some(g) ==> {
                &&& g.cols() == width
                &&& g.rows() == height
                &&& forall|x: int, y: int|
                    0 <= x < width && 0 <= y < height ==> #[trigger] g.at(x, y) == value
            },
    {
        match width.checked_mul(height) {
            None => None,
            Some(n) => {
                if n > isize::MAX as usize / 4 {
                    return None;
                }
                let cells: Vec<i32> = vec![value; n];
                let g = Grid { width, height, cells };
                proof {
                    assert forall|x: int, y: int| 0 <= x < width && 0 <= y < height implies #[trigger] g.at(
                        x,
                        y,
                    ) == value by {
                        lemma_flat_index_in_bounds(width as nat, height as nat, x, y);
                    }
                }
                Some(g)
            },
        }
    }

    /// The matrix whose rows, one after another, are `cells`; `None` unless
    /// `cells` holds exactly `width * height` values.
    pub fn from_cells(width: usize, height: usize, cells: Vec<i32>) -> (out: Option<Grid>)
        ensures
            out is Some <==> cells@.len() == width * height,
            out matches Some(g) ==> {
                &&& g.cols() == width
                &&& g.rows() == height
                &&& forall|x: int, y: int|
                    0 <= x < width && 0 <= y < height ==> #[trigger] g.at(x, y) == cells@[flat_index(
                        width as nat,
                        x,
                        y,
                    )]
            },
    {
        let len = cells.len();
        match width.checked_mul(height) {
            None => None,
            Some(n) => {
                if len == n {
                    Some(Grid { width, height, cells })
                } else {
                    None
                }
            },
        }
    }

    /// Number of columns.
    pub fn width(&self) -> (w: usize)
        ensures
            w == self.cols(),
            self.cols() * self.rows() <= usize::MAX,
    {
        proof {
            use_type_invariant(self);
        }
        assert(self.cells.len() <= usize::MAX);
        self.width
    }

    /// Number of rows.
    pub fn height(&self) -> (h: usize)
        ensures
            h == self.rows(),
    {
        self.height
    }

    /// The cell at `(x, y)`, or `None` outside the matrix.
    pub fn get(&self, x: usize, y: usize) -> (out: Option<i32>)
        ensures
            out == if x < self.cols() && y < self.rows() {
                Some(self.at(x as int, y as int))
            } else {
                None
            },
    {
        proof {
            use_type_invariant(self);
        }
        if x < self.width && y < self.height {
            proof {
                lemma_flat_index_in_bounds(self.width as nat, self.height as nat, x as int, y as int);
            }
            assert(self.cells.len() <= usize::MAX);
            Some(self.cells[y * self.width + x])
        } else {
            None
        }
    }

    /// Stores `value` at `(x, y)` and reports `true`; outside the matrix
    /// nothing changes and the answer is `false`.
    pub fn set(&mut self, x: usize, y: usize, value: i32) -> (done: bool)
        ensures
            done == (x < old(self).cols() && y < old(self).rows()),
            final(self).cols() == old(self).cols(),
            final(self).rows() == old(self).rows(),
            forall|i: int, j: int|
                0 <= i < old(self).cols() && 0 <= j < old(self).rows() ==> #[trigger] final(self).at(i, j)
                    == if done && i == x && j == y {
                    value
                } else {
                    old(self).at(i, j)
                },
    {
        proof {
            use_type_invariant(&*self);
        }
        if x < self.width && y < self.height {
            proof {
                lemma_flat_index_in_bounds(self.width as nat, self.height as nat, x as int, y as int);
            }
            let ghost before = self.cells@;
            let mut taken = Grid { width: 0, height: 0, cells: Vec::new() };
            core::mem::swap(self, &mut taken);
            let Grid { width, height, mut cells } = taken;
            assert(cells.len() <= usize::MAX);
            cells.set(y * width + x, value);
            *self = Grid { width, height, cells };
            proof {
                assert forall|i: int, j: int|
                    0 <= i < self.width && 0 <= j < self.height implies #[trigger] self.at(i, j) == if i
                    == x && j == y {
                    value
                } else {
                    before[flat_index(self.width as nat, i, j)]
                } by {
                    lemma_flat_index_in_bounds(self.width as nat, self.height as nat, i, j);
                    lemma_flat_index_injective(self.width as nat, i, j, x as int, y as int);
                }
            }
            true
        } else {
            false
        }
    }

    /// Whether a block as large as `src`, with its top-left cell at
    /// `(x0, y0)`, lies inside this matrix.
    pub open spec fn admits(&self, x0: int, y0: int, src: &Grid) -> bool {
        0 <= x0 && 0 <= y0 && x0 + src.cols() <= self.cols() && y0 + src.rows() <= self.rows()
    }

    /// Copies all of `src` into the block whose top-left cell is `(x0, y0)`
    /// and reports `true`; where the block does not lie inside this matrix,
    /// nothing changes and the answer is `false`.
    pub fn paste(&mut self, x0: usize, y0: usize, src: &Grid) -> (done: bool)
        ensures
            done == old(self).admits(x0 as int, y0 as int, src),
            final(self).cols() == old(self).cols(),
            final(self).rows() == old(self).rows(),
            forall|x: int, y: int|
                0 <= x < old(self).cols() && 0 <= y < old(self).rows() ==> #[trigger] final(self).at(x, y)
                    == if done && x0 <= x < x0 + src.cols() && y0 <= y < y0 + src.rows() {
                    src.at(x - x0, y - y0)
                } else {
                    old(self).at(x, y)
                },
    {
        let w = src.width();
        let h = src.height();
        if w > self.width() || x0 > self.width() - w || h > self.height() || y0 > self.height() - h {
            return false;
        }
        let ghost before = *self;
        let mut j: usize = 0;
        while j < h
            invariant
                j <= h,
                w == src.cols(),
                h == src.rows(),
                x0 + w <= self.cols(),
                y0 + h <= self.rows(),
                self.cols() == before.cols(),
                self.rows() == before.rows(),
                forall|x: int, y: int|
                    0 <= x < self.cols() && 0 <= y < self.rows() ==> #[trigger] self.at(x, y) == if x0
                        <= x < x0 + w && y0 <= y < y0 + j {
                        src.at(x - x0, y - y0)
                    } else {
                        before.at(x, y)
                    },
            decreases h - j,
        {
            let mut i: usize = 0;
            while i < w
                invariant
                    j < h,
                    i <= w,
                    w == src.cols(),
                    h == src.rows(),
                    x0 + w <= self.cols(),
                    y0 + h <= self.rows(),
                    self.cols() == before.cols(),
                    self.rows() == before.rows(),
                    forall|x: int, y: int|
                        0 <= x < self.cols() && 0 <= y < self.rows() ==> #[trigger] self.at(x, y) == if x0
                            <= x < x0 + w && (y0 <= y < y0 + j || (y == y0 + j && x < x0 + i)) {
                            src.at(x - x0, y - y0)
                        } else {
                            before.at(x, y)
                        },
                decreases w - i,
            {
                let v = src.get(i, j);
                match v {
                    Some(value) => {
                        self.set(x0 + i, y0 + j, value);
                    },
                    None => {},
                }
                i = i + 1;
            }
            j = j + 1;
        }
        true
    }

    /// The matrix as a list of rows, each a list of the row's cells.
    pub fn to_rows(&self) -> (out: Vec<Vec<i32>>)
        ensures
            out@.len() == self.rows(),
            forall|y: int| 0 <= y < self.rows() ==> (#[trigger] out@[y])@.len() == self.cols(),
            forall|x: int, y: int|
                0 <= x < self.cols() && 0 <= y < self.rows() ==> out@[y]@[x] == #[trigger] self.at(x, y),
    {
        let w = self.width();
        let h = self.height();
        let mut out: Vec<Vec<i32>> = Vec::new();
        let mut j: usize = 0;
        while j < h
            invariant
                j <= h,
                w == self.cols(),
                h == self.rows(),
                out@.len() == j,
                forall|y: int| 0 <= y < j ==> (#[trigger] out@[y])@.len() == w,
                forall|x: int, y: int| 0 <= x < w && 0 <= y < j ==> out@[y]@[x] == #[trigger] self.at(x, y),
            decreases h - j,
        {
            let mut row: Vec<i32> = Vec::new();
            let mut i: usize = 0;
            while i < w
                invariant
                    j < h,
                    i <= w,
                    w == self.cols(),
                    h == self.rows(),
                    row@.len() == i,
                    forall|x: int| 0 <= x < i ==> row@[x] == #[trigger] self.at(x, j as int),
                decreases w - i,
            {
                match self.get(i, j) {
                    Some(value) => {
                        row.push(value);
                    },
                    None => {},
                }
                i = i + 1;
            }
            out.push(row);
            j = j + 1;
        }
        out
    }
}

/// Two cells of one matrix share a flat position only when they are the same cell.
pub proof fn lemma_flat_index_injective(width: nat, x1: int, y1: int, x2: int, y2: int)
    requires
        0 <= x1 < width,
        0 <= x2 < width,
        0 <= y1,
        0 <= y2,
    ensures
        flat_index(width, x1, y1) == flat_index(width, x2, y2) <==> x1 == x2 && y1 == y2,
{
    if y1 < y2 {
        assert(y1 * width + width <= y2 * width) by (nonlinear_arith)
            requires
                y1 < y2,
                0 <= width,
        ;
    } else if y2 < y1 {
        assert(y2 * width + width <= y1 * width) by (nonlinear_arith)
            requires
                y2 < y1,
                0 <= width,
        ;
    }
}

} // verus!
