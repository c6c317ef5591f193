//! The character grid the overlay paints into.

use vstd::prelude::*;
use crate::cell::Cell;

verus! {

/// The mathematical content of a grid: `rows[line][col]`.
#[verifier::ext_equal]
pub struct GridView {
    pub cols: nat,
    pub rows: Seq<Seq<Cell>>,
}

impl GridView {
    /// Number of lines.
    pub open spec fn lines(self) -> nat {
        self.rows.len()
    }

    /// Every line has exactly `cols` cells.
    pub open spec fn wf(self) -> bool {
        forall|r: int| 0 <= r < self.rows.len() ==> (#[trigger] self.rows[r]).len() == self.cols
    }

    /// The cell at `(line, col)`.
    pub open spec fn at(self, line: int, col: int) -> Cell {
        self.rows[line][col]
    }

    /// The grid with one cell replaced.
    pub open spec fn with_cell(self, line: int, col: int, cell: Cell) -> GridView {
        GridView {
            cols: self.cols,
            rows: self.rows.update(line, self.rows[line].update(col, cell)),
        }
    }

    /// A grid of the given extent with the same cell everywhere.
    pub open spec fn filled(lines: nat, cols: nat, cell: Cell) -> GridView {
        GridView { cols, rows: Seq::new(lines, |r: int| Seq::new(cols, |c: int| cell)) }
    }

    /// The cells of column `col`, top to bottom.
    pub open spec fn column(self, col: int) -> Seq<Cell> {
        Seq::new(self.rows.len(), |r: int| self.rows[r][col])
    }
}

/// Two well-formed grids of the same extent that agree cell by cell are equal.
pub proof fn lemma_grid_ext(a: GridView, b: GridView)
    requires
        a.wf(),
        b.wf(),
        a.cols == b.cols,
        a.lines() == b.lines(),
        forall|l: int, c: int|
            0 <= l < a.lines() && 0 <= c < a.cols ==> #[trigger] a.at(l, c) == b.at(l, c),
    ensures
        a == b,
{
    assert forall|l: int| 0 <= l < a.rows.len() implies #[trigger] a.rows[l] =~= b.rows[l] by {
        assert forall|c: int| 0 <= c < a.rows[l].len() implies a.rows[l][c] == b.rows[l][c] by {
            assert(a.at(l, c) == b.at(l, c));
        }
    }
    assert(a.rows =~= b.rows);
    assert(a =~= b);
}

/// A fixed-extent, line-major array of cells.
#[derive(Clone, Debug)]
pub struct Grid {
    cols: usize,
    cells: Vec<Vec<Cell>>,
}

impl View for Grid {
    type V = GridView;

    closed spec fn view(&self) -> GridView {
        GridView {
            cols: self.cols as nat,
            rows: Seq::new(self.cells@.len(), |r: int| self.cells@[r]@),
        }
    }
}

impl Grid {
    /// Every line has exactly as many cells as the grid has columns.
    pub open spec fn wf(&self) -> bool {
        self@.wf()
    }

    /// A grid of `lines` by `cols` cells, all equal to `fill`.
    pub fn new(lines: usize, cols: usize, fill: Cell) -> (grid: Grid)
        ensures
            grid.wf(),
            grid@ == GridView::filled(lines as nat, cols as nat, fill),
    {
        let mut cells: Vec<Vec<Cell>> = Vec::new();
        let mut r: usize = 0;
        while r < lines
            invariant
                r <= lines,
                cells@.len() == r,
                forall|i: int|
                    0 <= i < r ==> (#[trigger] cells@[i])@ == Seq::new(cols as nat, |c: int| fill),
            decreases lines - r,
        {
            let mut row: Vec<Cell> = Vec::new();
            let mut c: usize = 0;
            while c < cols
                invariant
                    c <= cols,
                    row@.len() == c,
                    forall|j: int| 0 <= j < c ==> row@[j] == fill,
                decreases cols - c,
            {
                row.push(fill);
                c += 1;
            }
            assert(row@ =~= Seq::new(cols as nat, |c: int| fill));
            cells.push(row);
            r += 1;
        }
        let grid = Grid { cols, cells };
        assert(grid@.rows =~= GridView::filled(lines as nat, cols as nat, fill).rows);
        grid
    }

    /// Number of lines.
    pub fn num_lines(&self) -> (n: usize)
        ensures
            n == self@.lines(),
    {
        self.cells.len()
    }

    /// Number of columns.
    pub fn num_cols(&self) -> (n: usize)
        ensures
            n == self@.cols,
    {
        self.cols
    }

    /// The cell at `(line, col)`.
    pub fn get(&self, line: usize, col: usize) -> (cell: Cell)
        requires
            self.wf(),
            line < self@.lines(),
            col < self@.cols,
        ensures
            cell == self@.at(line as int, col as int),
    {
        assert(self@.rows[line as int] == self.cells@[line as int]@);
        self.cells[line][col]
    }

    /// Overwrites the cell at `(line, col)`.
    pub fn set(&mut self, line: usize, col: usize, cell: Cell)
        requires
            old(self).wf(),
            line < old(self)@.lines(),
            col < old(self)@.cols,
        ensures
            final(self).wf(),
            final(self)@ == old(self)@.with_cell(line as int, col as int, cell),
            final(self)@.cols == old(self)@.cols,
            final(self)@.lines() == old(self)@.lines(),
            forall|l: int, c: int|
                0 <= l < old(self)@.lines() && 0 <= c < old(self)@.cols ==> #[trigger] final(
                    self
                )@.at(l, c) == if l == line && c == col {
                    cell
                } else {
                    old(self)@.at(l, c)
                },
    {
        assert(self@.rows[line as int] == self.cells@[line as int]@);
        self.cells[line][col] = cell;
        assert(self@.rows =~= old(self)@.with_cell(line as int, col as int, cell).rows);
    }
}

} // verus!
