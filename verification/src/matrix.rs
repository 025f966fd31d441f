use vstd::prelude::*;

verus! {

/// The mathematical content of a [`Matrix`].
pub struct MatrixView {
    /// The number of rows.
    pub rows: nat,
    /// The number of columns.
    pub cols: nat,
    /// The cells, column after column.
    pub cells: Seq<u64>,
}

impl MatrixView {
    /// There is a cell for each row of each column.
    pub open spec fn wf(self) -> bool {
        self.cells.len() == self.rows * self.cols
    }

    /// The rows and the columns.
    pub open spec fn shape(self) -> (nat, nat) {
        (self.rows, self.cols)
    }

    /// The cell in row `row` of column `col`.
    pub open spec fn cell(self, row: int, col: int) -> u64 {
        self.cells[col * self.rows + row]
    }
}

/// A dense matrix of double-precision numbers, each held by its bits,
/// column after column.
#[derive(Clone, Debug, PartialEq, Eq)]
pub struct Matrix {
    rows: usize,
    cols: usize,
    cells: Vec<u64>,
}

impl View for Matrix {
    type V = MatrixView;

    closed spec fn view(&self) -> MatrixView {
        MatrixView { rows: self.rows as nat, cols: self.cols as nat, cells: self.cells@ }
    }
}

/// The place of a cell of a matrix with `rows` rows lies among the cells
/// of the columns up to its own.
pub proof fn lemma_cell_place(rows: int, cols: int, row: int, col: int)
    requires
        0 <= row < rows,
        0 <= col < cols,
    ensures
        0 <= col * rows + row < rows * cols,
{
    assert(col * rows + row < (col + 1) * rows) by (nonlinear_arith)
        requires
            0 <= row < rows,
    ;
    assert((col + 1) * rows <= cols * rows) by (nonlinear_arith)
        requires
            col + 1 <= cols,
            0 <= rows,
    ;
    assert(0 <= col * rows) by (nonlinear_arith)
        requires
            0 <= col,
            0 <= rows,
    ;
}

impl Matrix {
    /// The invariant of the matrix.
    pub open spec fn wf(&self) -> bool {
        self@.wf()
    }

    /// Builds the matrix of the given shape from its cells, column after
    /// column, unless their number is not that of the shape.
    pub fn from_cells(rows: usize, cols: usize, cells: Vec<u64>) -> (matrix: Option<Matrix>)
        ensures
            matrix is Some <==> cells.len() == rows * cols,
            matrix is Some ==> matrix->0.wf() && matrix->0@ == (MatrixView {
                rows: rows as nat,
                cols: cols as nat,
                cells: cells@,
            }),
    {
        match rows.checked_mul(cols) {
            Some(count) => {
                if cells.len() == count {
                    Some(Matrix { rows, cols, cells })
                } else {
                    None
                }
            },
            None => None,
        }
    }

    /// Builds the matrix of the given shape that has `value` in every
    /// cell, unless the number of its cells does not fit a `usize`.
    pub fn filled(rows: usize, cols: usize, value: u64) -> (matrix: Option<Matrix>)
        ensures
            matrix is Some <==> rows * cols <= usize::MAX,
            matrix is Some ==> matrix->0.wf() && matrix->0@ == (MatrixView {
                rows: rows as nat,
                cols: cols as nat,
                cells: Seq::new((rows * cols) as nat, |i: int| value),
            }),
    {
        let count: usize = match rows.checked_mul(cols) {
            Some(count) => count,
            None => {
                return None;
            },
        };
        let mut cells: Vec<u64> = Vec::new();
        while cells.len() < count
            invariant
                cells.len() <= count,
                forall|i: int| 0 <= i < cells.len() ==> #[trigger] cells[i] == value,
            decreases count - cells.len(),
        {
            cells.push(value);
        }
        proof {
            assert(cells@ =~= Seq::new((rows * cols) as nat, |i: int| value));
        }
        Some(Matrix { rows, cols, cells })
    }

    /// The number of rows.
    pub fn rows(&self) -> (rows: usize)
        ensures
            rows == self@.rows,
    {
        self.rows
    }

    /// The number of columns.
    pub fn cols(&self) -> (cols: usize)
        ensures
            cols == self@.cols,
    {
        self.cols
    }

    /// The cells, column after column.
    pub fn cells(&self) -> (cells: &Vec<u64>)
        ensures
            cells@ == self@.cells,
    {
        &self.cells
    }

    /// The cell in row `row` of column `col`, if the matrix has one there.
    pub fn get(&self, row: usize, col: usize) -> (cell: Option<u64>)
        requires
            self.wf(),
        ensures
            cell is Some <==> row < self@.rows && col < self@.cols,
            cell is Some ==> cell->0 == self@.cell(row as int, col as int),
    {
        if row < self.rows && col < self.cols {
            proof {
                lemma_cell_place(self.rows as int, self.cols as int, row as int, col as int);
                assert(self.cells.len() == self.rows * self.cols);
                assert(0 <= col * self.rows) by (nonlinear_arith)
                    requires
                        0 <= col,
                        0 <= self.rows,
                ;
            }
            Some(self.cells[col * self.rows + row])
        } else {
            None
        }
    }

    /// Takes the matrix apart into its cells, column after column.
    pub fn into_cells(self) -> (cells: Vec<u64>)
        ensures
            cells@ == self@.cells,
    {
        self.cells
    }
}

} // verus!
