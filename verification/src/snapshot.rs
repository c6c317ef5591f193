//! Snapshots of a grid, and what has changed since one was taken.

use vstd::prelude::*;
use crate::cell::Cell;
use crate::grid::{Grid, GridView};

verus! {

/// The content of a vector of vectors, as a sequence of sequences.
pub open spec fn nested<T>(v: Vec<Vec<T>>) -> Seq<Seq<T>> {
    Seq::new(v@.len(), |i: int| v@[i]@)
}

/// A full copy of a grid's cells, column by column, each column top to bottom.
pub open spec fn capture(grid: GridView) -> Seq<Seq<Cell>> {
    Seq::new(grid.cols, |c: int| grid.column(c))
}

/// A snapshot has one column per grid column and one cell per line in each.
pub open spec fn snapshot_fits(snapshot: Seq<Seq<Cell>>, grid: GridView) -> bool {
    &&& snapshot.len() == grid.cols
    &&& forall|c: int| 0 <= c < snapshot.len() ==> (#[trigger] snapshot[c]).len() == grid.lines()
}

/// Scanning upwards from just above line `below`: the first line whose
/// character differs between the two columns, or 0 if none does.
pub open spec fn lowest_changed_below(current: Seq<Cell>, original: Seq<Cell>, below: nat) -> nat
    decreases below,
{
    if below == 0 {
        0
    } else if current[below - 1].c != original[below - 1].c {
        (below - 1) as nat
    } else {
        lowest_changed_below(current, original, (below - 1) as nat)
    }
}

/// The lowest line at which a column's character differs from the snapshot
/// of that column; the top line if the two agree everywhere.
pub open spec fn lowest_changed(current: Seq<Cell>, original: Seq<Cell>) -> nat {
    lowest_changed_below(current, original, original.len())
}

/// Below the lowest changed line nothing has changed, and unless that line
/// is the top one, it has changed itself.
pub proof fn lemma_lowest_changed(current: Seq<Cell>, original: Seq<Cell>, below: nat)
    ensures
        lowest_changed_below(current, original, below) <= below,
        below > 0 ==> lowest_changed_below(current, original, below) < below,
        forall|r: int|
            lowest_changed_below(current, original, below) < r < below ==> current[r].c
                == original[r].c,
        lowest_changed_below(current, original, below) > 0 ==> current[lowest_changed_below(
            current,
            original,
            below,
        ) as int].c != original[lowest_changed_below(current, original, below) as int].c,
    decreases below,
{
    if below > 0 && current[below - 1].c == original[below - 1].c {
        lemma_lowest_changed(current, original, (below - 1) as nat);
    }
}

/// Copies every cell of the grid, column by column.
pub fn screen_shot(grid: &Grid) -> (snapshot: Vec<Vec<Cell>>)
    requires
        grid.wf(),
    ensures
        nested(snapshot) == capture(grid@),
        snapshot_fits(nested(snapshot), grid@),
{
    let mut original_columns: Vec<Vec<Cell>> = Vec::new();
    let width = grid.num_cols();
    let height = grid.num_lines();
    let mut col_index: usize = 0;
    while col_index < width
        invariant
            grid.wf(),
            width == grid@.cols,
            height == grid@.lines(),
            col_index <= width,
            original_columns@.len() == col_index,
            forall|c: int|
                0 <= c < col_index ==> (#[trigger] original_columns@[c])@ == grid@.column(c),
        decreases width - col_index,
    {
        let mut column: Vec<Cell> = Vec::new();
        let mut row: usize = 0;
        while row < height
            invariant
                grid.wf(),
                width == grid@.cols,
                height == grid@.lines(),
                col_index < width,
                row <= height,
                column@.len() == row,
                forall|r: int| 0 <= r < row ==> column@[r] == grid@.at(r, col_index as int),
            decreases height - row,
        {
            column.push(grid.get(row, col_index));
            row += 1;
        }
        assert(column@ =~= grid@.column(col_index as int));
        original_columns.push(column);
        col_index += 1;
    }
    assert(nested(original_columns) =~= capture(grid@));
    original_columns
}

/// The lowest line of one column whose character differs from `original`.
fn lowest_char_changed(grid: &Grid, col_index: usize, original: &Vec<Cell>) -> (index: usize)
    requires
        grid.wf(),
        col_index < grid@.cols,
        original@.len() == grid@.lines(),
    ensures
        index == lowest_changed(grid@.column(col_index as int), original@),
{
    let mut row: usize = original.len();
    while row > 0
        invariant
            grid.wf(),
            col_index < grid@.cols,
            original@.len() == grid@.lines(),
            row <= original@.len(),
            lowest_changed(grid@.column(col_index as int), original@) == lowest_changed_below(
                grid@.column(col_index as int),
                original@,
                row as nat,
            ),
        decreases row,
    {
        if grid.get(row - 1, col_index).c != original[row - 1].c {
            return row - 1;
        }
        row -= 1;
    }
    0
}

/// Compares a snapshot with the grid and finds, for each column, the lowest
/// line at which the two differ (the top line where they do not differ).
pub fn calc_lowest_char_changed_per_col(grid: &Grid, orig: &Vec<Vec<Cell>>) -> (lowest: Vec<usize>)
    requires
        grid.wf(),
        snapshot_fits(nested(*orig), grid@),
    ensures
        lowest@.len() == grid@.cols,
        forall|c: int|
            0 <= c < grid@.cols ==> #[trigger] lowest@[c] == lowest_changed(
                grid@.column(c),
                nested(*orig)[c],
            ),
{
    let mut lowest_char_changed_per_col: Vec<usize> = Vec::new();
    let mut col_index: usize = 0;
    while col_index < orig.len()
        invariant
            grid.wf(),
            snapshot_fits(nested(*orig), grid@),
            col_index <= orig@.len(),
            lowest_char_changed_per_col@.len() == col_index,
            forall|c: int|
                0 <= c < col_index ==> #[trigger] lowest_char_changed_per_col@[c]
                    == lowest_changed(grid@.column(c), nested(*orig)[c]),
        decreases orig@.len() - col_index,
    {
        assert(nested(*orig)[col_index as int] == orig@[col_index as int]@);
        let index = lowest_char_changed(grid, col_index, &orig[col_index]);
        lowest_char_changed_per_col.push(index);
        col_index += 1;
    }
    lowest_char_changed_per_col
}

/// The characters of one column, top to bottom.
pub fn first_col(grid: &Grid, debug_col: usize) -> (chars: Vec<char>)
    requires
        grid.wf(),
        debug_col < grid@.cols,
    ensures
        chars@.len() == grid@.lines(),
        forall|r: int| 0 <= r < grid@.lines() ==> chars@[r] == grid@.at(r, debug_col as int).c,
{
    let mut vec: Vec<char> = Vec::new();
    let height = grid.num_lines();
    let mut row_index: usize = 0;
    while row_index < height
        invariant
            grid.wf(),
            debug_col < grid@.cols,
            height == grid@.lines(),
            row_index <= height,
            vec@.len() == row_index,
            forall|r: int| 0 <= r < row_index ==> vec@[r] == grid@.at(r, debug_col as int).c,
        decreases height - row_index,
    {
        vec.push(grid.get(row_index, debug_col).c);
        row_index += 1;
    }
    vec
}

} // verus!
