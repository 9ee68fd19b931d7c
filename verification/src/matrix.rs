//! A fixed-size, generic, row-major 2-D container.
//!
//! A `Matrix<T>` is created fully allocated with every cell holding `T`'s
//! default value, and is never resized.  The cell at row `r`, column `c`
//! lives at flat index `r * cols + c` of one owned buffer.  Reads and writes
//! are bounds-checked and report [`Error::IndexOutOfRange`] instead of
//! panicking.

use vstd::prelude::*;
use vstd::string::StringExecFns;

use crate::error::Error;

verus! {

/// A dense row-major `rows` x `cols` grid of `T`.
pub struct Matrix<T> {
    rows: usize,
    cols: usize,
    data: Vec<T>,
}

impl<T> Matrix<T> {
    /// The number of rows.
    pub closed spec fn row_count(self) -> nat {
        self.rows as nat
    }

    /// The number of columns.
    pub closed spec fn col_count(self) -> nat {
        self.cols as nat
    }

    /// The cells in row-major order: row `r`, column `c` is at `r * cols + c`.
    pub closed spec fn entries(self) -> Seq<T> {
        self.data@
    }

    /// The backing buffer holds exactly one cell per grid position.
    pub open spec fn well_formed(self) -> bool {
        self.entries().len() == self.row_count() * self.col_count()
    }

    /// Whether `(r, c)` names a cell of the grid.
    pub open spec fn in_bounds(self, r: int, c: int) -> bool {
        0 <= r < self.row_count() && 0 <= c < self.col_count()
    }

    /// The cell at row `r`, column `c`.
    pub open spec fn entry(self, r: int, c: int) -> T {
        self.entries()[r * self.col_count() + c]
    }
}

/// A flat row-major index stays below `rows * cols`.
pub proof fn lemma_flat_index(r: int, c: int, rows: int, cols: int)
    requires
        0 <= r < rows,
        0 <= c < cols,
    ensures
        0 <= r * cols + c < rows * cols,
{
    assert(0 <= r * cols + c < rows * cols) by (nonlinear_arith)
        requires
            0 <= r < rows,
            0 <= c < cols,
    ;
}

impl<T: Copy + Default> Matrix<T> {
    /// Builds a `rows` x `cols` grid with every cell holding `T::default()`.
    pub fn new(rows: usize, cols: usize) -> (m: Matrix<T>)
        requires
            rows * cols <= usize::MAX,
        ensures
            m.well_formed(),
            m.row_count() == rows,
            m.col_count() == cols,
            forall|i: int|
                0 <= i < rows * cols ==> call_ensures(T::default, (), #[trigger] m.entries()[i]),
    {
        let fill: T = T::default();
        let cell_count: usize = rows * cols;
        let mut data: Vec<T> = Vec::new();
        let mut filled: usize = 0;
        while filled < cell_count
            invariant
                filled <= cell_count,
                data@.len() == filled,
                call_ensures(T::default, (), fill),
                forall|i: int| 0 <= i < filled ==> #[trigger] data@[i] == fill,
            decreases cell_count - filled,
        {
            data.push(fill);
            filled = filled + 1;
        }
        Matrix { rows, cols, data }
    }
}

impl<T: Copy> Matrix<T> {
    /// Writes `value` at row `row`, column `col`; reports
    /// `Error::IndexOutOfRange` exactly when the position is out of bounds,
    /// leaving the grid unchanged.
    pub fn set(&mut self, row: usize, col: usize, value: T) -> (r: Result<(), Error>)
        requires
            old(self).well_formed(),
        ensures
            final(self).well_formed(),
            final(self).row_count() == old(self).row_count(),
            final(self).col_count() == old(self).col_count(),
            old(self).in_bounds(row as int, col as int) ==> r == Ok::<(), Error>(())
                && final(self).entries() == old(self).entries().update(
                row * old(self).col_count() + col,
                value,
            ),
            !old(self).in_bounds(row as int, col as int) ==> r == Err::<(), Error>(
                Error::IndexOutOfRange,
            ) && *final(self) == *old(self),
    {
        if row < self.rows && col < self.cols {
            proof {
                lemma_flat_index(row as int, col as int, self.rows as int, self.cols as int);
            }
            let cell_count: usize = self.data.len();
            let index: usize = row * self.cols + col;
            assert(index < cell_count);
            self.data.set(index, value);
            Ok(())
        } else {
            Err(Error::IndexOutOfRange)
        }
    }

    /// Reads the cell at row `row`, column `col`; reports
    /// `Error::IndexOutOfRange` exactly when the position is out of bounds.
    pub fn get(&self, row: usize, col: usize) -> (r: Result<&T, Error>)
        requires
            self.well_formed(),
        ensures
            self.in_bounds(row as int, col as int) ==> (match r {
                Ok(v) => *v == self.entry(row as int, col as int),
                Err(_) => false,
            }),
            !self.in_bounds(row as int, col as int) ==> r == Err::<&T, Error>(
                Error::IndexOutOfRange,
            ),
    {
        if row < self.rows && col < self.cols {
            proof {
                lemma_flat_index(row as int, col as int, self.rows as int, self.cols as int);
            }
            let cell_count: usize = self.data.len();
            let index: usize = row * self.cols + col;
            assert(index < cell_count);
            Ok(&self.data[index])
        } else {
            Err(Error::IndexOutOfRange)
        }
    }
}

/// How a boolean cell reads in a rendered matrix.
pub open spec fn bool_text(b: bool) -> Seq<char> {
    if b {
        "true"@
    } else {
        "false"@
    }
}

/// The first `k` cells of row `r` as text, single spaces in between.
pub open spec fn row_cells_text(m: Matrix<bool>, r: int, k: nat) -> Seq<char>
    decreases k,
{
    if k == 0 {
        Seq::empty()
    } else {
        row_cells_text(m, r, (k - 1) as nat) + (if k - 1 > 0 {
            " "@
        } else {
            Seq::<char>::empty()
        }) + bool_text(m.entry(r, k - 1))
    }
}

/// The first `k` rows as text: each row's cells wrapped in `|` and `|`,
/// newline-terminated.
pub open spec fn rows_text(m: Matrix<bool>, k: nat) -> Seq<char>
    decreases k,
{
    if k == 0 {
        Seq::empty()
    } else {
        rows_text(m, (k - 1) as nat) + "|"@ + row_cells_text(m, k - 1, m.col_count()) + "|\n"@
    }
}

/// The whole grid as text, row by row.
pub open spec fn render_text(m: Matrix<bool>) -> Seq<char> {
    rows_text(m, m.row_count())
}

impl Matrix<bool> {
    /// Renders the grid: one line per row, cells separated by single
    /// spaces, each row wrapped in a leading and a trailing `|` and ended
    /// by a newline.
    pub fn render(&self) -> (out: String)
        requires
            self.well_formed(),
        ensures
            out@ == render_text(*self),
    {
        let mut out: String = String::new();
        let mut row: usize = 0;
        while row < self.rows
            invariant
                self.well_formed(),
                row <= self.row_count(),
                out@ == rows_text(*self, row as nat),
            decreases self.rows - row,
        {
            out.append("|");
            let ghost line_start = out@;
            let mut col: usize = 0;
            while col < self.cols
                invariant
                    self.well_formed(),
                    row < self.row_count(),
                    col <= self.col_count(),
                    line_start == rows_text(*self, row as nat) + "|"@,
                    out@ == line_start + row_cells_text(*self, row as int, col as nat),
                decreases self.cols - col,
            {
                if col > 0 {
                    out.append(" ");
                }
                let cell: &bool = self.get(row, col).unwrap();
                if *cell {
                    out.append("true");
                } else {
                    out.append("false");
                }
                proof {
                    assert(out@ =~= line_start + row_cells_text(
                        *self,
                        row as int,
                        (col + 1) as nat,
                    ));
                }
                col = col + 1;
            }
            out.append("|\n");
            proof {
                assert(out@ =~= rows_text(*self, (row + 1) as nat));
            }
            row = row + 1;
        }
        out
    }
}

} // verus!
