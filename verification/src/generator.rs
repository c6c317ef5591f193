//! Building trails from the grid's content and a plan of bursts.

use vstd::prelude::*;
use crate::cell::{Cell, Color, Rgb, BOLD};
use crate::grid::{Grid, GridView};
use crate::random::{Burst, Glyph, BURST_END};
use crate::snapshot::{lemma_lowest_changed, lowest_changed, nested};
use crate::trail::{
    lemma_drained_after, lemma_exhaustion, lemma_real_cells_concat, lemma_real_cells_of_real_only,
    lemma_real_cells_of_synthetic, real_cells, real_only, stepped, window, TrailEntry,
};

verus! {

/// Green level of the dimmest synthetic character of a burst.
pub const RAMP_BASE: u8 = 150;

/// Green gained for each position a synthetic character is further from the
/// end of its burst.
pub const RAMP_STEP: u8 = 10;

/// Green level of the `i`-th of `count` synthetic characters of a burst.
pub open spec fn ramp_level(count: nat, i: int) -> int {
    RAMP_BASE + (count - i) * RAMP_STEP
}

/// The ramp fades: within a burst of valid length every level fits a colour
/// channel, and a character further from the real one is dimmer.
pub proof fn lemma_ramp_fades(count: nat, i: int, j: int)
    requires
        count < BURST_END,
        0 <= i < j < count,
    ensures
        RAMP_BASE < ramp_level(count, j) < ramp_level(count, i) <= u8::MAX,
{
}

/// The `i`-th of `count` synthetic characters that follow `source`: drawn in
/// green, brightest next to the real character and fading from there, on the
/// real character's background.
pub open spec fn glyph_cell(source: Cell, count: nat, i: int, glyph: Glyph) -> Cell {
    Cell {
        c: glyph.code as char,
        fg: Color::Spec(Rgb { r: 0, g: ramp_level(count, i) as u8, b: 0 }),
        bg: source.bg,
        flags: if glyph.bold {
            BOLD
        } else {
            0
        },
    }
}

/// A blank in the colours of `source`.
pub open spec fn gap_cell(source: Cell) -> Cell {
    Cell { c: ' ', fg: source.fg, bg: source.bg, flags: 0 }
}

/// The synthetic entries that follow the real entry of `source`: the burst's
/// characters, then its gap.
pub open spec fn burst_entries(source: Cell, burst: Burst) -> Seq<TrailEntry> {
    Seq::new(
        burst.glyphs@.len(),
        |i: int| TrailEntry::Synthetic(glyph_cell(source, burst.glyphs@.len(), i, burst.glyphs@[i])),
    ) + Seq::new(burst.gap as nat, |i: int| TrailEntry::Synthetic(gap_cell(source)))
}

/// What one grid cell contributes to its column's trail: its real entry, and
/// a burst after it if the cell is not blank and lies above the cutoff.
pub open spec fn row_entries(cell: Cell, above_cutoff: bool, burst: Burst) -> Seq<TrailEntry> {
    if above_cutoff && !cell.blank() {
        seq![TrailEntry::Real(cell)] + burst_entries(cell, burst)
    } else {
        seq![TrailEntry::Real(cell)]
    }
}

/// The trail of a column of cells, top to bottom, where `bursts[r]` is the
/// burst planned for line `r`.
pub open spec fn column_trail(
    cells: Seq<Cell>,
    cutoff: nat,
    bursts: Seq<Burst>,
) -> Seq<TrailEntry>
    decreases cells.len(),
{
    if cells.len() == 0 {
        Seq::empty()
    } else {
        column_trail(cells.drop_last(), cutoff, bursts) + row_entries(
            cells.last(),
            cells.len() - 1 < cutoff,
            bursts[cells.len() - 1],
        )
    }
}

/// The plan holds a burst for every line, and a valid one wherever a burst
/// will be shown.
pub open spec fn bursts_cover(cells: Seq<Cell>, cutoff: nat, bursts: Seq<Burst>) -> bool {
    &&& bursts.len() == cells.len()
    &&& forall|r: int|
        0 <= r < cells.len() && r < cutoff && !cells[r].blank() ==> (#[trigger] bursts[r]).valid()
}

/// The plan covers every column of the grid.
pub open spec fn plan_covers(grid: GridView, cutoffs: Seq<usize>, plan: Seq<Seq<Burst>>) -> bool {
    &&& cutoffs.len() == grid.cols
    &&& plan.len() == grid.cols
    &&& forall|c: int|
        0 <= c < grid.cols ==> bursts_cover(grid.column(c), cutoffs[c] as nat, #[trigger] plan[c])
}

/// One trail per column of the grid.
pub open spec fn trails_of(
    grid: GridView,
    cutoffs: Seq<usize>,
    plan: Seq<Seq<Burst>>,
) -> Seq<Seq<TrailEntry>> {
    Seq::new(grid.cols, |c: int| column_trail(grid.column(c), cutoffs[c] as nat, plan[c]))
}

/// The real entries of a column's trail are the column's cells, in order:
/// one per line, whatever the bursts.
pub proof fn lemma_column_trail_real_cells(cells: Seq<Cell>, cutoff: nat, bursts: Seq<Burst>)
    ensures
        real_cells(column_trail(cells, cutoff, bursts)) == cells,
    decreases cells.len(),
{
    if cells.len() > 0 {
        let head = column_trail(cells.drop_last(), cutoff, bursts);
        let row = row_entries(cells.last(), cells.len() - 1 < cutoff, bursts[cells.len() - 1]);
        let burst = burst_entries(cells.last(), bursts[cells.len() - 1]);
        lemma_column_trail_real_cells(cells.drop_last(), cutoff, bursts);
        lemma_real_cells_concat(head, row);
        lemma_real_cells_of_real_only(seq![cells.last()]);
        assert(real_only(seq![cells.last()]) =~= seq![TrailEntry::Real(cells.last())]);
        lemma_real_cells_of_synthetic(burst);
        lemma_real_cells_concat(seq![TrailEntry::Real(cells.last())], burst);
        assert(real_cells(row) =~= seq![cells.last()]);
        assert(cells.drop_last() + seq![cells.last()] =~= cells);
    } else {
        assert(real_cells(column_trail(cells, cutoff, bursts)) =~= cells);
    }
}

/// A freshly generated trail, stepped once for each entry it holds beyond
/// the column's lines, has no synthetic entry left, and its window shows the
/// column's cells as they were; stepping it as often as it is long does too.
pub proof fn lemma_generated_trail_drains(cells: Seq<Cell>, cutoff: nat, bursts: Seq<Burst>)
    ensures
        column_trail(cells, cutoff, bursts).len() >= cells.len(),
        stepped(
            column_trail(cells, cutoff, bursts),
            (column_trail(cells, cutoff, bursts).len() - cells.len()) as nat,
        ) == real_only(cells),
        window(
            stepped(
                column_trail(cells, cutoff, bursts),
                (column_trail(cells, cutoff, bursts).len() - cells.len()) as nat,
            ),
            cells.len(),
        ) == cells,
        stepped(column_trail(cells, cutoff, bursts), column_trail(cells, cutoff, bursts).len())
            == real_only(cells),
{
    let trail = column_trail(cells, cutoff, bursts);
    lemma_column_trail_real_cells(cells, cutoff, bursts);
    lemma_exhaustion(trail);
    lemma_drained_after(trail, trail.len());
}

/// Lines at or below the cutoff contribute their real entry and nothing
/// else: the trail is the trail of the lines above the cutoff, followed by
/// the remaining cells as real entries.
pub proof fn lemma_stable_lines_stay_real(cells: Seq<Cell>, cutoff: nat, bursts: Seq<Burst>)
    requires
        cutoff <= cells.len(),
    ensures
        column_trail(cells, cutoff, bursts) == column_trail(
            cells.take(cutoff as int),
            cutoff,
            bursts,
        ) + real_only(cells.skip(cutoff as int)),
    decreases cells.len(),
{
    let upper = cells.take(cutoff as int);
    let lower = cells.skip(cutoff as int);
    if cells.len() == cutoff {
        assert(upper =~= cells);
        assert(column_trail(cells, cutoff, bursts) + real_only(lower) =~= column_trail(
            cells,
            cutoff,
            bursts,
        ));
    } else {
        let rest = cells.drop_last();
        lemma_stable_lines_stay_real(rest, cutoff, bursts);
        assert(rest.take(cutoff as int) =~= upper);
        assert(real_only(rest.skip(cutoff as int)) + seq![TrailEntry::Real(cells.last())]
            =~= real_only(lower));
        assert(column_trail(cells, cutoff, bursts) =~= column_trail(upper, cutoff, bursts)
            + real_only(lower));
    }
}

/// When the cutoff of a column is its lowest changed line, no line below the
/// cutoff has changed since the snapshot, and the cutoff line and every line
/// below it hold only their real entry in the trail.
pub proof fn lemma_cutoff_bounds_synthetics(
    current: Seq<Cell>,
    original: Seq<Cell>,
    bursts: Seq<Burst>,
)
    requires
        current.len() == original.len(),
    ensures
        lowest_changed(current, original) <= current.len(),
        forall|r: int|
            lowest_changed(current, original) < r < current.len() ==> current[r].c
                == original[r].c,
        column_trail(current, lowest_changed(current, original), bursts) == column_trail(
            current.take(lowest_changed(current, original) as int),
            lowest_changed(current, original),
            bursts,
        ) + real_only(current.skip(lowest_changed(current, original) as int)),
{
    lemma_lowest_changed(current, original, original.len());
    lemma_stable_lines_stay_real(current, lowest_changed(current, original), bursts);
}

/// Whether the bursts planned for one column cover it under the cutoff.
pub fn bursts_cover_column(
    grid: &Grid,
    col_index: usize,
    cutoff: usize,
    bursts: &Vec<Burst>,
) -> (covered: bool)
    requires
        grid.wf(),
        col_index < grid@.cols,
    ensures
        covered == bursts_cover(grid@.column(col_index as int), cutoff as nat, bursts@),
{
    if bursts.len() != grid.num_lines() {
        return false;
    }
    let ghost cells = grid@.column(col_index as int);
    let mut row_index: usize = 0;
    while row_index < bursts.len()
        invariant
            grid.wf(),
            col_index < grid@.cols,
            bursts@.len() == grid@.lines(),
            cells == grid@.column(col_index as int),
            row_index <= bursts@.len(),
            forall|r: int|
                0 <= r < row_index && r < cutoff && !cells[r].blank() ==> (
                #[trigger] bursts@[r]).valid(),
        decreases bursts@.len() - row_index,
    {
        let cell = grid.get(row_index, col_index);
        if cell.c != ' ' && row_index < cutoff && !bursts[row_index].is_valid() {
            assert(!cells[row_index as int].blank());
            return false;
        }
        row_index += 1;
    }
    true
}

/// Appends to `column` the synthetic entries of one burst after `source`.
pub fn append_burst(column: &mut Vec<TrailEntry>, source: Cell, burst: &Burst)
    requires
        burst.valid(),
    ensures
        final(column)@ == old(column)@ + burst_entries(source, *burst),
{
    let ran_char_count = burst.glyphs.len();
    let ghost glyph_run = Seq::new(
        burst.glyphs@.len(),
        |i: int|
            TrailEntry::Synthetic(glyph_cell(source, burst.glyphs@.len(), i, burst.glyphs@[i])),
    );
    let ghost gap_run = Seq::new(
        burst.gap as nat,
        |i: int| TrailEntry::Synthetic(gap_cell(source)),
    );
    let mut i: usize = 0;
    while i < ran_char_count
        invariant
            burst.valid(),
            ran_char_count == burst.glyphs@.len(),
            i <= ran_char_count,
            glyph_run == Seq::new(
                burst.glyphs@.len(),
                |i: int|
                    TrailEntry::Synthetic(
                        glyph_cell(source, burst.glyphs@.len(), i, burst.glyphs@[i]),
                    ),
            ),
            column@ == old(column)@ + glyph_run.take(i as int),
        decreases ran_char_count - i,
    {
        let glyph = burst.glyphs[i];
        let level: u8 = (RAMP_BASE as usize + (ran_char_count - i) * (RAMP_STEP as usize)) as u8;
        let rnd_char = Cell {
            c: glyph.code as char,
            fg: Color::Spec(Rgb { r: 0, g: level, b: 0 }),
            bg: source.bg,
            flags: if glyph.bold {
                BOLD
            } else {
                0
            },
        };
        assert(rnd_char == glyph_cell(source, burst.glyphs@.len(), i as int, glyph));
        column.push(TrailEntry::Synthetic(rnd_char));
        assert(glyph_run.take(i + 1) =~= glyph_run.take(i as int).push(glyph_run[i as int]));
        i += 1;
    }
    assert(glyph_run.take(i as int) =~= glyph_run);
    let space = Cell { c: ' ', fg: source.fg, bg: source.bg, flags: 0 };
    let mut k: u8 = 0;
    while k < burst.gap
        invariant
            k <= burst.gap,
            space == gap_cell(source),
            gap_run == Seq::new(burst.gap as nat, |i: int| TrailEntry::Synthetic(gap_cell(source))),
            column@ == old(column)@ + glyph_run + gap_run.take(k as int),
        decreases burst.gap - k,
    {
        column.push(TrailEntry::Synthetic(space));
        assert(gap_run.take(k + 1) =~= gap_run.take(k as int).push(gap_run[k as int]));
        k += 1;
    }
    assert(gap_run.take(k as int) =~= gap_run);
    assert(column@ =~= old(column)@ + (glyph_run + gap_run));
}

/// Builds the trail of one column from the grid and the bursts planned for it.
pub fn build_column(
    grid: &Grid,
    col_index: usize,
    cutoff: usize,
    bursts: &Vec<Burst>,
) -> (column: Vec<TrailEntry>)
    requires
        grid.wf(),
        col_index < grid@.cols,
        bursts_cover(grid@.column(col_index as int), cutoff as nat, bursts@),
    ensures
        column@ == column_trail(grid@.column(col_index as int), cutoff as nat, bursts@),
{
    let mut column: Vec<TrailEntry> = Vec::new();
    let height = grid.num_lines();
    let ghost cells = grid@.column(col_index as int);
    let mut row_index: usize = 0;
    while row_index < height
        invariant
            grid.wf(),
            col_index < grid@.cols,
            height == grid@.lines(),
            cells == grid@.column(col_index as int),
            bursts_cover(cells, cutoff as nat, bursts@),
            row_index <= height,
            column@ == column_trail(cells.take(row_index as int), cutoff as nat, bursts@),
        decreases height - row_index,
    {
        let cell = grid.get(row_index, col_index);
        let ghost before = column@;
        column.push(TrailEntry::Real(cell));
        assert(column@ =~= before + seq![TrailEntry::Real(cell)]);
        if cell.c != ' ' && row_index < cutoff {
            append_burst(&mut column, cell, &bursts[row_index]);
            assert(column@ =~= before + (seq![TrailEntry::Real(cell)] + burst_entries(
                cell,
                bursts@[row_index as int],
            )));
        }
        proof {
            let next = cells.take(row_index + 1);
            assert(next.drop_last() =~= cells.take(row_index as int));
            assert(next.last() == cell);
        }
        row_index += 1;
    }
    assert(cells.take(row_index as int) =~= cells);
    column
}

/// Builds one trail per column from the grid, the per-column cutoffs and a
/// plan of bursts.
pub fn build_trails(
    grid: &Grid,
    cutoffs: &Vec<usize>,
    plan: &Vec<Vec<Burst>>,
) -> (trails: Vec<Vec<TrailEntry>>)
    requires
        grid.wf(),
        plan_covers(grid@, cutoffs@, nested(*plan)),
    ensures
        nested(trails) == trails_of(grid@, cutoffs@, nested(*plan)),
{
    let mut trails: Vec<Vec<TrailEntry>> = Vec::new();
    let width = grid.num_cols();
    let mut col_index: usize = 0;
    while col_index < width
        invariant
            grid.wf(),
            width == grid@.cols,
            plan_covers(grid@, cutoffs@, nested(*plan)),
            col_index <= width,
            trails@.len() == col_index,
            forall|c: int|
                0 <= c < col_index ==> (#[trigger] trails@[c])@ == column_trail(
                    grid@.column(c),
                    cutoffs@[c] as nat,
                    nested(*plan)[c],
                ),
        decreases width - col_index,
    {
        assert(nested(*plan)[col_index as int] == plan@[col_index as int]@);
        let column = build_column(grid, col_index, cutoffs[col_index], &plan[col_index]);
        trails.push(column);
        col_index += 1;
    }
    assert(nested(trails) =~= trails_of(grid@, cutoffs@, nested(*plan)));
    trails
}

/// Draws, for one column, a burst for every cell that will show one.
fn draw_bursts(grid: &Grid, col_index: usize, cutoff: usize) -> (bursts: Vec<Burst>)
    requires
        grid.wf(),
        col_index < grid@.cols,
    ensures
        bursts_cover(grid@.column(col_index as int), cutoff as nat, bursts@),
{
    let mut bursts: Vec<Burst> = Vec::new();
    let height = grid.num_lines();
    let mut row_index: usize = 0;
    while row_index < height
        invariant
            grid.wf(),
            col_index < grid@.cols,
            height == grid@.lines(),
            row_index <= height,
            bursts@.len() == row_index,
            forall|r: int|
                0 <= r < row_index && r < cutoff && !grid@.column(col_index as int)[r].blank()
                    ==> (#[trigger] bursts@[r]).valid(),
        decreases height - row_index,
    {
        let cell = grid.get(row_index, col_index);
        if cell.c != ' ' && row_index < cutoff {
            bursts.push(Burst::draw());
        } else {
            bursts.push(Burst::none());
        }
        row_index += 1;
    }
    bursts
}

/// Draws at random a plan of bursts that covers the grid: one burst for
/// every cell that is not blank and lies above its column's cutoff.
pub fn draw_plan(grid: &Grid, cutoffs: &Vec<usize>) -> (plan: Vec<Vec<Burst>>)
    requires
        grid.wf(),
        cutoffs@.len() == grid@.cols,
    ensures
        plan_covers(grid@, cutoffs@, nested(plan)),
{
    let mut plan: Vec<Vec<Burst>> = Vec::new();
    let width = grid.num_cols();
    let mut col_index: usize = 0;
    while col_index < width
        invariant
            grid.wf(),
            width == grid@.cols,
            cutoffs@.len() == grid@.cols,
            col_index <= width,
            plan@.len() == col_index,
            forall|c: int|
                0 <= c < col_index ==> bursts_cover(
                    grid@.column(c),
                    cutoffs@[c] as nat,
                    (#[trigger] plan@[c])@,
                ),
        decreases width - col_index,
    {
        plan.push(draw_bursts(grid, col_index, cutoffs[col_index]));
        col_index += 1;
    }
    assert forall|c: int| 0 <= c < grid@.cols implies bursts_cover(
        grid@.column(c),
        cutoffs@[c] as nat,
        #[trigger] nested(plan)[c],
    ) by {
        assert(nested(plan)[c] == plan@[c]@);
    }
    plan
}

} // verus!
