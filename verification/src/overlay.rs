//! What the overlay shows on the grid, whether the grid still shows it, and
//! how the overlay's writes are taken back.

use vstd::prelude::*;
use crate::cell::Cell;
use crate::grid::{lemma_grid_ext, Grid, GridView};
use crate::snapshot::{nested, snapshot_fits};
use crate::trail::{lemma_real_cells_len, real_cells, TrailEntry};

verus! {

/// There is one trail per grid column, and every trail holds exactly one
/// real entry per grid line.
pub open spec fn trails_fit(trails: Seq<Seq<TrailEntry>>, grid: GridView) -> bool {
    &&& trails.len() == grid.cols
    &&& forall|c: int|
        0 <= c < trails.len() ==> real_cells(#[trigger] trails[c]).len() == grid.lines()
}

/// The cell the trails show at `(line, col)` of a grid of `lines` lines.
pub open spec fn overlay_cell(
    trails: Seq<Seq<TrailEntry>>,
    lines: nat,
    line: int,
    col: int,
) -> Cell {
    trails[col][trails[col].len() - lines + line].content()
}

/// Some cell of the grid no longer shows the character the trails show there.
pub open spec fn drifted(trails: Seq<Seq<TrailEntry>>, grid: GridView) -> bool {
    exists|line: int, col: int|
        0 <= line < grid.lines() && 0 <= col < grid.cols && grid.at(line, col).c != (
        #[trigger] overlay_cell(trails, grid.lines(), line, col)).c
}

/// The grid with every trail's window written into its column.
pub open spec fn rendered(grid: GridView, trails: Seq<Seq<TrailEntry>>) -> GridView {
    GridView {
        cols: grid.cols,
        rows: Seq::new(
            grid.lines(),
            |l: int| Seq::new(grid.cols, |c: int| overlay_cell(trails, grid.lines(), l, c)),
        ),
    }
}

/// What restoring makes of one cell. `current` is what the grid holds,
/// `written` what the overlay last wrote there, `original` what the snapshot
/// holds. Where the grid still shows the overlay's character and that
/// character is not the snapshot's, the snapshot's cell comes back; any
/// other cell is left as it is.
pub open spec fn restored_cell(current: Cell, written: Cell, original: Cell) -> Cell {
    if current.c == written.c && written.c != original.c {
        original
    } else {
        current
    }
}

/// The grid with every cell restored.
pub open spec fn restored(
    grid: GridView,
    trails: Seq<Seq<TrailEntry>>,
    snapshot: Seq<Seq<Cell>>,
) -> GridView {
    GridView {
        cols: grid.cols,
        rows: Seq::new(
            grid.lines(),
            |l: int|
                Seq::new(
                    grid.cols,
                    |c: int|
                        restored_cell(
                            grid.at(l, c),
                            overlay_cell(trails, grid.lines(), l, c),
                            snapshot[c][l],
                        ),
                ),
        ),
    }
}

/// Restoring is transparent to real content. A cell that the outside writer
/// has left alone since the overlay wrote it shows the snapshot's character
/// afterwards; a cell the outside writer has changed keeps the outside value
/// exactly, neither the snapshot's nor the trail's.
pub proof fn lemma_restoration_fidelity(
    grid: GridView,
    trails: Seq<Seq<TrailEntry>>,
    snapshot: Seq<Seq<Cell>>,
    line: int,
    col: int,
)
    requires
        0 <= line < grid.lines(),
        0 <= col < grid.cols,
    ensures
        grid.at(line, col).c == overlay_cell(trails, grid.lines(), line, col).c ==> restored(
            grid,
            trails,
            snapshot,
        ).at(line, col).c == snapshot[col][line].c,
        grid.at(line, col).c != overlay_cell(trails, grid.lines(), line, col).c ==> restored(
            grid,
            trails,
            snapshot,
        ).at(line, col) == grid.at(line, col),
{
}

/// Counts the real entries of a trail.
pub fn count_real(trail: &Vec<TrailEntry>) -> (count: usize)
    ensures
        count == real_cells(trail@).len(),
{
    let mut count: usize = 0;
    let mut i: usize = 0;
    while i < trail.len()
        invariant
            i <= trail@.len(),
            count <= i,
            count == real_cells(trail@.take(i as int)).len(),
        decreases trail@.len() - i,
    {
        assert(trail@.take(i + 1).drop_last() =~= trail@.take(i as int));
        if trail[i].is_real() {
            count += 1;
        }
        i += 1;
    }
    assert(trail@.take(i as int) =~= trail@);
    count
}

/// Whether the trails have the shape of the grid.
pub fn trails_fit_grid(columns: &Vec<Vec<TrailEntry>>, grid: &Grid) -> (fit: bool)
    ensures
        fit == trails_fit(nested(*columns), grid@),
{
    if columns.len() != grid.num_cols() {
        return false;
    }
    let height = grid.num_lines();
    let mut col_index: usize = 0;
    while col_index < columns.len()
        invariant
            columns@.len() == grid@.cols,
            height == grid@.lines(),
            col_index <= columns@.len(),
            forall|c: int|
                0 <= c < col_index ==> real_cells(#[trigger] nested(*columns)[c]).len() == height,
        decreases columns@.len() - col_index,
    {
        if count_real(&columns[col_index]) != height {
            assert(nested(*columns)[col_index as int] == columns@[col_index as int]@);
            return false;
        }
        assert(nested(*columns)[col_index as int] == columns@[col_index as int]@);
        col_index += 1;
    }
    true
}

/// Whether a snapshot has the shape of the grid.
pub fn snapshot_fits_grid(snapshot: &Vec<Vec<Cell>>, grid: &Grid) -> (fit: bool)
    ensures
        fit == snapshot_fits(nested(*snapshot), grid@),
{
    if snapshot.len() != grid.num_cols() {
        return false;
    }
    let height = grid.num_lines();
    let mut col_index: usize = 0;
    while col_index < snapshot.len()
        invariant
            snapshot@.len() == grid@.cols,
            height == grid@.lines(),
            col_index <= snapshot@.len(),
            forall|c: int| 0 <= c < col_index ==> (#[trigger] nested(*snapshot)[c]).len() == height,
        decreases snapshot@.len() - col_index,
    {
        assert(nested(*snapshot)[col_index as int] == snapshot@[col_index as int]@);
        if snapshot[col_index].len() != height {
            return false;
        }
        col_index += 1;
    }
    true
}

/// The cell a fitting set of trails shows at `(line, col)`.
fn overlay_at(
    columns: &Vec<Vec<TrailEntry>>,
    height: usize,
    line: usize,
    col: usize,
) -> (cell: Cell)
    requires
        col < columns@.len(),
        line < height,
        real_cells(nested(*columns)[col as int]).len() == height,
    ensures
        cell == overlay_cell(nested(*columns), height as nat, line as int, col as int),
{
    proof {
        lemma_real_cells_len(columns@[col as int]@);
    }
    let trail = &columns[col];
    let relative_index = (trail.len() - height) + line;
    trail[relative_index].cell()
}

/// Full-grid comparison: whether any cell of the grid shows another
/// character than the one the trails show there.
pub fn has_drifted(columns: &Vec<Vec<TrailEntry>>, grid: &Grid) -> (dirty: bool)
    requires
        grid.wf(),
        trails_fit(nested(*columns), grid@),
    ensures
        dirty == drifted(nested(*columns), grid@),
{
    let width = grid.num_cols();
    let height = grid.num_lines();
    let mut col_index: usize = 0;
    while col_index < width
        invariant
            grid.wf(),
            trails_fit(nested(*columns), grid@),
            width == grid@.cols,
            height == grid@.lines(),
            col_index <= width,
            forall|l: int, c: int|
                0 <= l < height && 0 <= c < col_index ==> grid@.at(l, c).c == (
                #[trigger] overlay_cell(nested(*columns), height as nat, l, c)).c,
        decreases width - col_index,
    {
        let mut row: usize = 0;
        while row < height
            invariant
                grid.wf(),
                trails_fit(nested(*columns), grid@),
                width == grid@.cols,
                height == grid@.lines(),
                col_index < width,
                row <= height,
                forall|l: int, c: int|
                    0 <= l < height && 0 <= c < col_index ==> grid@.at(l, c).c == (
                    #[trigger] overlay_cell(nested(*columns), height as nat, l, c)).c,
                forall|l: int|
                    0 <= l < row ==> grid@.at(l, col_index as int).c == (#[trigger] overlay_cell(
                        nested(*columns),
                        height as nat,
                        l,
                        col_index as int,
                    )).c,
            decreases height - row,
        {
            let ch = overlay_at(columns, height, row, col_index);
            if grid.get(row, col_index).c != ch.c {
                return true;
            }
            row += 1;
        }
        col_index += 1;
    }
    false
}

/// Writes every trail's window into its grid column.
pub fn render(columns: &Vec<Vec<TrailEntry>>, grid: &mut Grid)
    requires
        old(grid).wf(),
        trails_fit(nested(*columns), old(grid)@),
    ensures
        final(grid).wf(),
        final(grid)@ == rendered(old(grid)@, nested(*columns)),
{
    let width = grid.num_cols();
    let height = grid.num_lines();
    let ghost trails = nested(*columns);
    let mut col_index: usize = 0;
    while col_index < width
        invariant
            grid.wf(),
            trails == nested(*columns),
            trails_fit(trails, old(grid)@),
            grid@.cols == old(grid)@.cols,
            grid@.lines() == old(grid)@.lines(),
            width == grid@.cols,
            height == grid@.lines(),
            col_index <= width,
            forall|l: int, c: int|
                0 <= l < height && 0 <= c < col_index ==> #[trigger] grid@.at(l, c)
                    == overlay_cell(trails, height as nat, l, c),
        decreases width - col_index,
    {
        let mut row: usize = 0;
        while row < height
            invariant
                grid.wf(),
                trails == nested(*columns),
                trails_fit(trails, old(grid)@),
                grid@.cols == old(grid)@.cols,
                grid@.lines() == old(grid)@.lines(),
                width == grid@.cols,
                height == grid@.lines(),
                col_index < width,
                row <= height,
                forall|l: int, c: int|
                    0 <= l < height && 0 <= c < col_index ==> #[trigger] grid@.at(l, c)
                        == overlay_cell(trails, height as nat, l, c),
                forall|l: int|
                    0 <= l < row ==> #[trigger] grid@.at(l, col_index as int) == overlay_cell(
                        trails,
                        height as nat,
                        l,
                        col_index as int,
                    ),
            decreases height - row,
        {
            let ch = overlay_at(columns, height, row, col_index);
            grid.set(row, col_index, ch);
            row += 1;
        }
        col_index += 1;
    }
    proof {
        lemma_grid_ext(grid@, rendered(old(grid)@, trails));
    }
}

/// Takes the overlay's writes back: restores every cell of the grid from
/// the snapshot where the grid still shows what the trails wrote.
pub fn restore(columns: &Vec<Vec<TrailEntry>>, orig: &Vec<Vec<Cell>>, grid: &mut Grid)
    requires
        old(grid).wf(),
        trails_fit(nested(*columns), old(grid)@),
        snapshot_fits(nested(*orig), old(grid)@),
    ensures
        final(grid).wf(),
        final(grid)@ == restored(old(grid)@, nested(*columns), nested(*orig)),
{
    let width = grid.num_cols();
    let height = grid.num_lines();
    let ghost trails = nested(*columns);
    let ghost snapshot = nested(*orig);
    let ghost before = grid@;
    let mut col_index: usize = 0;
    while col_index < width
        invariant
            grid.wf(),
            before == old(grid)@,
            trails == nested(*columns),
            snapshot == nested(*orig),
            trails_fit(trails, before),
            snapshot_fits(snapshot, before),
            grid@.cols == before.cols,
            grid@.lines() == before.lines(),
            width == grid@.cols,
            height == grid@.lines(),
            col_index <= width,
            forall|l: int, c: int|
                0 <= l < height && 0 <= c < width ==> #[trigger] grid@.at(l, c) == if c
                    < col_index {
                    restored_cell(
                        before.at(l, c),
                        overlay_cell(trails, height as nat, l, c),
                        snapshot[c][l],
                    )
                } else {
                    before.at(l, c)
                },
        decreases width - col_index,
    {
        let mut row_index: usize = 0;
        while row_index < height
            invariant
                grid.wf(),
                before == old(grid)@,
                trails == nested(*columns),
                snapshot == nested(*orig),
                trails_fit(trails, before),
                snapshot_fits(snapshot, before),
                grid@.cols == before.cols,
                grid@.lines() == before.lines(),
                width == grid@.cols,
                height == grid@.lines(),
                col_index < width,
                row_index <= height,
                forall|l: int, c: int|
                    0 <= l < height && 0 <= c < width ==> #[trigger] grid@.at(l, c) == if c
                        < col_index || (c == col_index && l < row_index) {
                        restored_cell(
                            before.at(l, c),
                            overlay_cell(trails, height as nat, l, c),
                            snapshot[c][l],
                        )
                    } else {
                        before.at(l, c)
                    },
            decreases height - row_index,
        {
            let matrix_ch = overlay_at(columns, height, row_index, col_index);
            let current_screen_buffer_ch = grid.get(row_index, col_index).c;
            assert(snapshot[col_index as int] == orig@[col_index as int]@);
            let original_ch = orig[col_index][row_index];
            if current_screen_buffer_ch == matrix_ch.c && matrix_ch.c != original_ch.c {
                grid.set(row_index, col_index, original_ch);
            }
            row_index += 1;
        }
        col_index += 1;
    }
    proof {
        lemma_grid_ext(grid@, restored(before, trails, snapshot));
    }
}

} // verus!
