//! The overlay's state and what one tick does to it and to the grid:
//! reconcile with the outside writer, generate trails once the grid has been
//! quiet for long enough, and step the trails down.

use vstd::prelude::*;
use crate::cell::Cell;
use crate::generator::{
    build_trails, bursts_cover, bursts_cover_column, column_trail, draw_plan,
    lemma_column_trail_real_cells, lemma_cutoff_bounds_synthetics, plan_covers,
};
use crate::grid::{lemma_grid_ext, Grid, GridView};
use crate::overlay::{
    drifted, has_drifted, overlay_cell, render, rendered, restore, restored, snapshot_fits_grid,
    trails_fit, trails_fit_grid,
};
use crate::random::Burst;
use crate::snapshot::{
    calc_lowest_char_changed_per_col, capture, lemma_lowest_changed, lowest_changed, nested,
    screen_shot, snapshot_fits,
};
use crate::trail::{
    last_synthetic, lemma_all_real, lemma_real_cells_len, lemma_step_trail, real_cells, real_only,
    step_column, step_trail, TrailEntry,
};

verus! {

/// Ticks that must pass after a detected outside change before new trails
/// are generated.
pub const COOLDOWN: u64 = 4;

/// The overlay's state. It is created once, empty, and changed by every tick.
#[derive(Clone, Debug)]
pub struct MatrixUndo {
    /// Ticks seen so far.
    pub tick: u64,
    /// The tick at which an outside change was last detected.
    pub last_change_detected: u64,
    /// The snapshot: a copy of the grid, column by column. Empty until the
    /// first one is taken.
    pub original_columns: Vec<Vec<Cell>>,
    /// The trails, one per grid column, or none at all.
    pub columns: Vec<Vec<TrailEntry>>,
}

/// The mathematical content of the overlay's state.
#[verifier::ext_equal]
pub struct UndoView {
    pub tick: u64,
    pub last_change_detected: u64,
    pub snapshot: Seq<Seq<Cell>>,
    pub trails: Seq<Seq<TrailEntry>>,
}

impl View for MatrixUndo {
    type V = UndoView;

    open spec fn view(&self) -> UndoView {
        UndoView {
            tick: self.tick,
            last_change_detected: self.last_change_detected,
            snapshot: nested(self.original_columns),
            trails: nested(self.columns),
        }
    }
}

/// What reconciling found.
#[derive(Clone, Copy, Debug, PartialEq, Eq, Structural)]
pub enum Reconciled {
    /// No trails are active.
    Idle,
    /// The trails fit the grid and the grid shows what they show.
    Steady,
    /// The trails did not fit the grid any more; they were dropped.
    Resized,
    /// The outside writer changed the grid; the overlay's writes were undone.
    Restored,
}

/// The state after an undo, and the grid after it. With no trails active,
/// nothing changes. Otherwise the grid is restored if the snapshot and the
/// trails both have its shape, the snapshot is taken anew from the restored
/// grid, the trails are dropped, and the change is dated to the current tick.
pub open spec fn undone(s: UndoView, g: GridView) -> (UndoView, GridView) {
    if s.trails.len() == 0 {
        (s, g)
    } else {
        let g2 = if snapshot_fits(s.snapshot, g) && trails_fit(s.trails, g) {
            restored(g, s.trails, s.snapshot)
        } else {
            g
        };
        (
            UndoView {
                tick: s.tick,
                last_change_detected: s.tick,
                snapshot: capture(g2),
                trails: Seq::empty(),
            },
            g2,
        )
    }
}

/// What reconciling finds in a state and a grid.
pub open spec fn reconcile_outcome(s: UndoView, g: GridView) -> Reconciled {
    if s.trails.len() == 0 {
        Reconciled::Idle
    } else if !trails_fit(s.trails, g) {
        Reconciled::Resized
    } else if drifted(s.trails, g) {
        Reconciled::Restored
    } else {
        Reconciled::Steady
    }
}

/// The state and the grid after reconciling. Trails that no longer fit the
/// grid are dropped and the snapshot is taken anew, with nothing restored.
/// Trails that fit a grid which has drifted from them are undone.
pub open spec fn reconciled(s: UndoView, g: GridView) -> (UndoView, GridView) {
    match reconcile_outcome(s, g) {
        Reconciled::Idle => (s, g),
        Reconciled::Steady => (s, g),
        Reconciled::Resized => (
            UndoView {
                tick: s.tick,
                last_change_detected: s.last_change_detected,
                snapshot: capture(g),
                trails: Seq::empty(),
            },
            g,
        ),
        Reconciled::Restored => undone(s, g),
    }
}

/// No trails are active and the cooldown since the last detected change has
/// passed.
pub open spec fn generation_due(s: UndoView) -> bool {
    s.trails.len() == 0 && s.last_change_detected + COOLDOWN <= s.tick
}

/// The cutoff of column `c`: synthetic entries may follow only the lines
/// above it. Against a snapshot of the grid's shape it is the lowest line
/// that differs from the snapshot. Before any snapshot exists every line is
/// eligible. A snapshot of another shape says nothing about this grid, so
/// no line is eligible.
pub open spec fn cutoff_for(snapshot: Seq<Seq<Cell>>, g: GridView, c: int) -> nat {
    if snapshot.len() == 0 {
        g.lines()
    } else if !snapshot_fits(snapshot, g) {
        0
    } else {
        lowest_changed(g.column(c), snapshot[c])
    }
}

/// The plan of bursts covers every column of the grid under the cutoffs
/// that the snapshot gives.
pub open spec fn plan_suits(g: GridView, snapshot: Seq<Seq<Cell>>, plan: Seq<Seq<Burst>>) -> bool {
    &&& plan.len() == g.cols
    &&& forall|c: int|
        0 <= c < g.cols ==> bursts_cover(
            g.column(c),
            cutoff_for(snapshot, g, c),
            #[trigger] plan[c],
        )
}

/// The state after generating trails from the grid with the given plan: one
/// trail per column, and a fresh snapshot of the grid.
pub open spec fn generated(s: UndoView, g: GridView, plan: Seq<Seq<Burst>>) -> UndoView {
    UndoView {
        tick: s.tick,
        last_change_detected: s.last_change_detected,
        snapshot: capture(g),
        trails: Seq::new(
            g.cols,
            |c: int| column_trail(g.column(c), cutoff_for(s.snapshot, g, c), plan[c]),
        ),
    }
}

/// Every trail after one step.
pub open spec fn stepped_trails(trails: Seq<Seq<TrailEntry>>) -> Seq<Seq<TrailEntry>> {
    Seq::new(trails.len(), |c: int| step_trail(trails[c]))
}

/// Some trail still holds a synthetic entry, so a step removes one.
pub open spec fn makes_progress(trails: Seq<Seq<TrailEntry>>) -> bool {
    exists|c: int| 0 <= c < trails.len() && last_synthetic(#[trigger] trails[c]) >= 0
}

/// The state and the grid after the stepper. Without trails nothing
/// happens. If a step removes a synthetic entry anywhere, every trail's
/// window is written to the grid. If not, the trails have settled: the grid
/// is left alone, and a snapshot of it is taken if none exists yet.
pub open spec fn step_result(s: UndoView, g: GridView) -> (UndoView, GridView) {
    if s.trails.len() == 0 {
        (s, g)
    } else if makes_progress(s.trails) {
        (
            UndoView {
                tick: s.tick,
                last_change_detected: s.last_change_detected,
                snapshot: s.snapshot,
                trails: stepped_trails(s.trails),
            },
            rendered(g, stepped_trails(s.trails)),
        )
    } else {
        (
            UndoView {
                tick: s.tick,
                last_change_detected: s.last_change_detected,
                snapshot: if s.snapshot.len() == 0 {
                    capture(g)
                } else {
                    s.snapshot
                },
                trails: s.trails,
            },
            g,
        )
    }
}

/// The tick counter after one more tick. It stops at the largest value
/// rather than wrap around, so it never decreases.
pub open spec fn next_tick(tick: u64) -> u64 {
    if tick < u64::MAX {
        (tick + 1) as u64
    } else {
        tick
    }
}

/// The state with its tick counter advanced.
pub open spec fn advanced(s: UndoView) -> UndoView {
    UndoView {
        tick: next_tick(s.tick),
        last_change_detected: s.last_change_detected,
        snapshot: s.snapshot,
        trails: s.trails,
    }
}

/// The state and the grid after one tick in which `plan` is what the random
/// draws gave: advance the counter, reconcile, generate if due, step.
pub open spec fn tick_result(s: UndoView, g: GridView, plan: Seq<Seq<Burst>>) -> (
    UndoView,
    GridView,
) {
    let r = reconciled(advanced(s), g);
    let s2 = if generation_due(r.0) {
        generated(r.0, r.1, plan)
    } else {
        r.0
    };
    step_result(s2, r.1)
}

/// `after` is what one tick makes of `s` and `g` when the random draws give
/// `plan`, and `plan` is one that the draws can give.
pub open spec fn tick_outcome(
    s: UndoView,
    g: GridView,
    plan: Seq<Seq<Burst>>,
    after: (UndoView, GridView),
) -> bool {
    let r = reconciled(advanced(s), g);
    &&& generation_due(r.0) ==> plan_suits(r.1, r.0.snapshot, plan)
    &&& after == tick_result(s, g, plan)
}

/// Generated trails fit the grid they were generated from.
pub proof fn lemma_generated_fits(s: UndoView, g: GridView, plan: Seq<Seq<Burst>>)
    requires
        g.wf(),
    ensures
        trails_fit(generated(s, g, plan).trails, g),
{
    let trails = generated(s, g, plan).trails;
    assert forall|c: int| 0 <= c < trails.len() implies real_cells(#[trigger] trails[c]).len()
        == g.lines() by {
        lemma_column_trail_real_cells(g.column(c), cutoff_for(s.snapshot, g, c), plan[c]);
    }
}

/// A step leaves fitting trails fitting.
pub proof fn lemma_stepped_fits(trails: Seq<Seq<TrailEntry>>, g: GridView)
    requires
        trails_fit(trails, g),
    ensures
        trails_fit(stepped_trails(trails), g),
{
    assert forall|c: int| 0 <= c < trails.len() implies real_cells(
        #[trigger] stepped_trails(trails)[c],
    ).len() == g.lines() by {
        lemma_step_trail(trails[c]);
    }
}

/// A snapshot taken from a grid shows no change against that grid.
pub proof fn lemma_fresh_snapshot_cutoff(g: GridView, c: int)
    requires
        g.wf(),
        0 <= c < g.cols,
    ensures
        snapshot_fits(capture(g), g),
        cutoff_for(capture(g), g, c) == 0,
{
    lemma_lowest_changed(g.column(c), capture(g)[c], g.column(c).len());
}

/// Resizing resets cleanly. Trails of `lines` by `cols` entries, met with a
/// grid of another extent, are dropped when reconciling; the snapshot is
/// taken anew from the grid and has its shape; the grid is not touched; and
/// a generator that runs next sees a snapshot without any change in it.
pub proof fn lemma_resize_resets(s: UndoView, g: GridView, lines: nat, cols: nat)
    requires
        g.wf(),
        cols > 0,
        s.trails.len() == cols,
        forall|c: int| 0 <= c < cols ==> real_cells(#[trigger] s.trails[c]).len() == lines,
        g.lines() != lines || g.cols != cols,
    ensures
        reconcile_outcome(s, g) == Reconciled::Resized,
        reconciled(s, g).0.trails.len() == 0,
        reconciled(s, g).0.snapshot == capture(g),
        snapshot_fits(reconciled(s, g).0.snapshot, g),
        reconciled(s, g).1 == g,
        forall|c: int| 0 <= c < g.cols ==> cutoff_for(reconciled(s, g).0.snapshot, g, c) == 0,
{
    assert(real_cells(s.trails[0]).len() == lines);
    assert forall|c: int| 0 <= c < g.cols implies cutoff_for(capture(g), g, c) == 0 by {
        lemma_fresh_snapshot_cutoff(g, c);
    }
}

/// The cooldown gates generation. While no trails are active and fewer
/// ticks than the cooldown have passed since the last detected change, a
/// tick generates nothing and leaves the grid alone.
pub proof fn lemma_cooldown_gates_generation(s: UndoView, g: GridView, plan: Seq<Seq<Burst>>)
    requires
        s.trails.len() == 0,
        next_tick(s.tick) < s.last_change_detected + COOLDOWN,
    ensures
        tick_result(s, g, plan).0.trails.len() == 0,
        tick_result(s, g, plan).1 == g,
{
}

/// Once the cooldown has passed, the next tick without active trails
/// generates one trail per grid column.
pub proof fn lemma_generation_after_cooldown(s: UndoView, g: GridView, plan: Seq<Seq<Burst>>)
    requires
        s.trails.len() == 0,
        s.last_change_detected + COOLDOWN <= next_tick(s.tick),
    ensures
        tick_result(s, g, plan).0.trails.len() == g.cols,
{
}

/// An undo that finds trails dates the change to the current tick, so the
/// cooldown starts over.
pub proof fn lemma_undo_restarts_cooldown(s: UndoView, g: GridView)
    requires
        s.trails.len() > 0,
    ensures
        undone(s, g).0.last_change_detected == s.tick,
        undone(s, g).0.trails.len() == 0,
        !generation_due(advanced(undone(s, g).0)),
{
}

/// Synthetic entries appear only above the most recent change. With a
/// snapshot of the grid's shape, no line of a column below its cutoff
/// differs from the snapshot, and in the generated trail the cutoff line and
/// every line below it hold their real entry and nothing else.
pub proof fn lemma_cutoff_monotonic(s: UndoView, g: GridView, plan: Seq<Seq<Burst>>, c: int)
    requires
        g.wf(),
        s.snapshot.len() > 0,
        snapshot_fits(s.snapshot, g),
        0 <= c < g.cols,
    ensures
        cutoff_for(s.snapshot, g, c) <= g.lines(),
        forall|l: int|
            cutoff_for(s.snapshot, g, c) < l < g.lines() ==> g.at(l, c).c == s.snapshot[c][l].c,
        generated(s, g, plan).trails[c] == column_trail(
            g.column(c).take(cutoff_for(s.snapshot, g, c) as int),
            cutoff_for(s.snapshot, g, c),
            plan[c],
        ) + real_only(g.column(c).skip(cutoff_for(s.snapshot, g, c) as int)),
{
    lemma_cutoff_bounds_synthetics(g.column(c), s.snapshot[c], plan[c]);
}

/// The same holds of the snapshot that an undo leaves behind: whatever the
/// grid of the same extent looks like when trails are next generated, no
/// line below a column's cutoff differs from the grid as the undo left it,
/// and the cutoff line and the lines below it hold only their real entry.
pub proof fn lemma_cutoff_after_restore(
    s: UndoView,
    g: GridView,
    later: GridView,
    plan: Seq<Seq<Burst>>,
    c: int,
)
    requires
        g.wf(),
        later.wf(),
        later.lines() == g.lines(),
        later.cols == g.cols,
        s.trails.len() > 0,
        0 <= c < g.cols,
    ensures
        cutoff_for(undone(s, g).0.snapshot, later, c) <= later.lines(),
        forall|l: int|
            cutoff_for(undone(s, g).0.snapshot, later, c) < l < later.lines() ==> later.at(l, c).c
                == undone(s, g).1.at(l, c).c,
        generated(undone(s, g).0, later, plan).trails[c] == column_trail(
            later.column(c).take(cutoff_for(undone(s, g).0.snapshot, later, c) as int),
            cutoff_for(undone(s, g).0.snapshot, later, c),
            plan[c],
        ) + real_only(later.column(c).skip(cutoff_for(undone(s, g).0.snapshot, later, c) as int)),
{
    lemma_cutoff_monotonic(undone(s, g).0, later, plan, c);
}

/// After every tick that leaves trails active, the trails fit the grid and
/// the grid shows, cell by cell, the character of each trail's window.
pub proof fn lemma_tick_mirrors_trails(s: UndoView, g: GridView, plan: Seq<Seq<Burst>>)
    requires
        g.wf(),
    ensures
        tick_result(s, g, plan).1.wf(),
        tick_result(s, g, plan).0.trails.len() > 0 ==> trails_fit(
            tick_result(s, g, plan).0.trails,
            tick_result(s, g, plan).1,
        ) && !drifted(tick_result(s, g, plan).0.trails, tick_result(s, g, plan).1),
{
    let r = reconciled(advanced(s), g);
    let g1 = r.1;
    assert(g1.wf());
    let s2 = if generation_due(r.0) {
        generated(r.0, g1, plan)
    } else {
        r.0
    };
    if s2.trails.len() > 0 {
        if generation_due(r.0) {
            lemma_generated_fits(r.0, g1, plan);
        }
        assert(trails_fit(s2.trails, g1));
        if makes_progress(s2.trails) {
            lemma_stepped_fits(s2.trails, g1);
        } else if generation_due(r.0) {
            assert forall|l: int, c: int| 0 <= l < g1.lines() && 0 <= c < g1.cols implies g1.at(
                l,
                c,
            ).c == (#[trigger] overlay_cell(s2.trails, g1.lines(), l, c)).c by {
                let trail = s2.trails[c];
                assert(last_synthetic(trail) < 0);
                lemma_real_cells_len(trail);
                lemma_all_real(trail);
                lemma_column_trail_real_cells(
                    g1.column(c),
                    cutoff_for(r.0.snapshot, g1, c),
                    plan[c],
                );
            }
        }
    }
}

/// The state and the grid after `k` runs of the stepper.
pub open spec fn steps(s: UndoView, g: GridView, k: nat) -> (UndoView, GridView)
    decreases k,
{
    if k == 0 {
        (s, g)
    } else {
        steps(step_result(s, g).0, step_result(s, g).1, (k - 1) as nat)
    }
}

/// The trails hold, as their real entries, the cells of the grid's columns.
pub open spec fn trails_carry(trails: Seq<Seq<TrailEntry>>, g: GridView) -> bool {
    &&& trails.len() == g.cols
    &&& forall|c: int| 0 <= c < trails.len() ==> real_cells(#[trigger] trails[c]) == g.column(c)
}

/// Every column of the grid as a trail of real entries.
pub open spec fn settled_trails(g: GridView) -> Seq<Seq<TrailEntry>> {
    Seq::new(g.cols, |c: int| real_only(g.column(c)))
}

/// An animation runs out and gives the grid back. Let the trails carry the
/// cells of `g`, and let the grid on show be `g` itself unless some trail
/// still holds a synthetic entry. Then after as many runs of the stepper as
/// the longest trail has entries beyond the grid's lines, or more, the grid
/// on show is `g`, cell for cell, and no synthetic entry is left.
pub proof fn lemma_animation_returns_grid(s: UndoView, shown: GridView, g: GridView, k: nat)
    requires
        g.wf(),
        shown.wf(),
        shown.cols == g.cols,
        shown.lines() == g.lines(),
        trails_carry(s.trails, g),
        !makes_progress(s.trails) ==> shown == g,
        forall|c: int| 0 <= c < s.trails.len() ==> (#[trigger] s.trails[c]).len() - g.lines() <= k,
    ensures
        steps(s, shown, k).1 == g,
        steps(s, shown, k).0.trails == settled_trails(g),
    decreases k,
{
    assert forall|c: int| 0 <= c < s.trails.len() implies real_cells(#[trigger] s.trails[c]).len()
        == g.lines() by {
        assert(real_cells(s.trails[c]) == g.column(c));
    }
    if k == 0 {
        assert forall|c: int| 0 <= c < s.trails.len() implies last_synthetic(
            #[trigger] s.trails[c],
        ) < 0 && s.trails[c] == settled_trails(g)[c] by {
            lemma_real_cells_len(s.trails[c]);
            lemma_all_real(s.trails[c]);
        }
        assert(s.trails =~= settled_trails(g));
    } else if s.trails.len() == 0 {
        lemma_animation_returns_grid(s, shown, g, (k - 1) as nat);
    } else if makes_progress(s.trails) {
        let next = step_result(s, shown);
        assert forall|c: int| 0 <= c < next.0.trails.len() implies real_cells(
            #[trigger] next.0.trails[c],
        ) == g.column(c) && next.0.trails[c].len() - g.lines() <= k - 1 by {
            lemma_step_trail(s.trails[c]);
            lemma_real_cells_len(s.trails[c]);
        }
        if !makes_progress(next.0.trails) {
            assert forall|l: int, c: int| 0 <= l < g.lines() && 0 <= c < g.cols implies (
            #[trigger] next.1.at(l, c)) == g.at(l, c) by {
                let trail = next.0.trails[c];
                assert(last_synthetic(trail) < 0);
                lemma_real_cells_len(trail);
                lemma_all_real(trail);
            }
            lemma_grid_ext(next.1, g);
        }
        lemma_animation_returns_grid(next.0, next.1, g, (k - 1) as nat);
    } else {
        let next = step_result(s, shown);
        assert forall|c: int| 0 <= c < s.trails.len() implies (#[trigger] s.trails[c]).len()
            - g.lines() <= k - 1 by {
            assert(last_synthetic(s.trails[c]) < 0);
            lemma_real_cells_len(s.trails[c]);
        }
        lemma_animation_returns_grid(next.0, next.1, g, (k - 1) as nat);
    }
}

/// Freshly generated trails, stepped often enough, give back the grid they
/// were generated from and end without a synthetic entry.
pub proof fn lemma_generated_animation_settles(
    s: UndoView,
    g: GridView,
    plan: Seq<Seq<Burst>>,
    k: nat,
)
    requires
        g.wf(),
        forall|c: int|
            0 <= c < g.cols ==> (#[trigger] generated(s, g, plan).trails[c]).len() - g.lines() <= k,
    ensures
        steps(generated(s, g, plan), g, k).1 == g,
        steps(generated(s, g, plan), g, k).0.trails == settled_trails(g),
{
    let trails = generated(s, g, plan).trails;
    assert forall|c: int| 0 <= c < trails.len() implies real_cells(#[trigger] trails[c])
        == g.column(c) by {
        lemma_column_trail_real_cells(g.column(c), cutoff_for(s.snapshot, g, c), plan[c]);
    }
    lemma_animation_returns_grid(generated(s, g, plan), g, g, k);
}

impl MatrixUndo {
    /// The state before the first tick: no snapshot, no trails.
    pub fn new() -> (state: MatrixUndo)
        ensures
            state@ == (UndoView {
                tick: 0,
                last_change_detected: 0,
                snapshot: Seq::empty(),
                trails: Seq::empty(),
            }),
    {
        let state = MatrixUndo {
            tick: 0,
            last_change_detected: 0,
            original_columns: Vec::new(),
            columns: Vec::new(),
        };
        assert(state@.snapshot =~= Seq::empty());
        assert(state@.trails =~= Seq::empty());
        state
    }

    /// Whether the cooldown since the last detected change has passed.
    pub fn cooldown_elapsed(&self) -> (elapsed: bool)
        ensures
            elapsed == (self.last_change_detected + COOLDOWN <= self.tick),
    {
        self.tick >= COOLDOWN && self.last_change_detected <= self.tick - COOLDOWN
    }
}

/// Takes back what the overlay wrote and drops the trails.
pub fn undo(state: &mut MatrixUndo, grid: &mut Grid)
    requires
        old(grid).wf(),
    ensures
        final(grid).wf(),
        final(state)@ == undone(old(state)@, old(grid)@).0,
        final(grid)@ == undone(old(state)@, old(grid)@).1,
{
    if state.columns.is_empty() {
        return ;
    }
    state.last_change_detected = state.tick;
    if snapshot_fits_grid(&state.original_columns, grid) && trails_fit_grid(&state.columns, grid) {
        restore(&state.columns, &state.original_columns, grid);
    }
    state.original_columns = screen_shot(grid);
    state.columns.clear();
    assert(state@.trails =~= Seq::empty());
    assert(state@ =~= undone(old(state)@, old(grid)@).0);
}

/// Reconciles the overlay with the grid as the outside writer left it:
/// drops trails that no longer fit, and undoes the overlay's writes if the
/// grid has drifted from what the trails show.
pub fn reconcile(state: &mut MatrixUndo, grid: &mut Grid) -> (outcome: Reconciled)
    requires
        old(grid).wf(),
    ensures
        final(grid).wf(),
        outcome == reconcile_outcome(old(state)@, old(grid)@),
        final(state)@ == reconciled(old(state)@, old(grid)@).0,
        final(grid)@ == reconciled(old(state)@, old(grid)@).1,
        final(state)@.trails.len() == 0 || trails_fit(final(state)@.trails, final(grid)@),
{
    if state.columns.is_empty() {
        return Reconciled::Idle;
    }
    let has_been_resized = !trails_fit_grid(&state.columns, grid);
    if has_been_resized {
        state.columns.clear();
        state.original_columns = screen_shot(grid);
        assert(state@.trails =~= Seq::empty());
        assert(state@ =~= reconciled(old(state)@, old(grid)@).0);
        return Reconciled::Resized;
    }
    if has_drifted(&state.columns, grid) {
        undo(state, grid);
        return Reconciled::Restored;
    }
    Reconciled::Steady
}

/// A vector that holds `value` `count` times.
fn repeated(value: usize, count: usize) -> (v: Vec<usize>)
    ensures
        v@.len() == count,
        forall|i: int| 0 <= i < count ==> v@[i] == value,
{
    let mut v: Vec<usize> = Vec::new();
    let mut i: usize = 0;
    while i < count
        invariant
            i <= count,
            v@.len() == i,
            forall|j: int| 0 <= j < i ==> v@[j] == value,
        decreases count - i,
    {
        v.push(value);
        i += 1;
    }
    v
}

/// The cutoff of every column of the grid against the state's snapshot.
pub fn cutoffs(state: &MatrixUndo, grid: &Grid) -> (lowest: Vec<usize>)
    requires
        grid.wf(),
    ensures
        lowest@.len() == grid@.cols,
        forall|c: int|
            0 <= c < grid@.cols ==> #[trigger] lowest@[c] == cutoff_for(state@.snapshot, grid@, c),
{
    if state.original_columns.is_empty() {
        repeated(grid.num_lines(), grid.num_cols())
    } else if !snapshot_fits_grid(&state.original_columns, grid) {
        repeated(0, grid.num_cols())
    } else {
        calc_lowest_char_changed_per_col(grid, &state.original_columns)
    }
}

/// Whether a plan of bursts suits the grid under the cutoffs that the
/// state's snapshot gives.
pub fn plan_suits_grid(state: &MatrixUndo, grid: &Grid, plan: &Vec<Vec<Burst>>) -> (suits: bool)
    requires
        grid.wf(),
    ensures
        suits == plan_suits(grid@, state@.snapshot, nested(*plan)),
{
    if plan.len() != grid.num_cols() {
        return false;
    }
    let lowest = cutoffs(state, grid);
    let mut col_index: usize = 0;
    while col_index < plan.len()
        invariant
            grid.wf(),
            plan@.len() == grid@.cols,
            lowest@.len() == grid@.cols,
            forall|c: int|
                0 <= c < grid@.cols ==> #[trigger] lowest@[c] == cutoff_for(
                    state@.snapshot,
                    grid@,
                    c,
                ),
            col_index <= plan@.len(),
            forall|c: int|
                0 <= c < col_index ==> bursts_cover(
                    grid@.column(c),
                    cutoff_for(state@.snapshot, grid@, c),
                    #[trigger] nested(*plan)[c],
                ),
        decreases plan@.len() - col_index,
    {
        assert(nested(*plan)[col_index as int] == plan@[col_index as int]@);
        if !bursts_cover_column(grid, col_index, lowest[col_index], &plan[col_index]) {
            return false;
        }
        col_index += 1;
    }
    true
}

/// Installs the trails that the plan gives under the cutoffs, and a fresh
/// snapshot.
fn generate_from(
    state: &mut MatrixUndo,
    grid: &Grid,
    lowest: &Vec<usize>,
    plan: &Vec<Vec<Burst>>,
)
    requires
        grid.wf(),
        lowest@.len() == grid@.cols,
        forall|c: int|
            0 <= c < grid@.cols ==> #[trigger] lowest@[c] == cutoff_for(
                old(state)@.snapshot,
                grid@,
                c,
            ),
        plan_suits(grid@, old(state)@.snapshot, nested(*plan)),
    ensures
        final(state)@ == generated(old(state)@, grid@, nested(*plan)),
{
    assert(plan_covers(grid@, lowest@, nested(*plan)));
    let trails = build_trails(grid, lowest, plan);
    state.original_columns = screen_shot(grid);
    state.columns = trails;
    assert(state@.trails =~= generated(old(state)@, grid@, nested(*plan)).trails);
    assert(state@ =~= generated(old(state)@, grid@, nested(*plan)));
}

/// Generates trails from the grid with the given plan of bursts, and takes
/// a fresh snapshot of the grid.
pub fn generate_with(state: &mut MatrixUndo, grid: &Grid, plan: &Vec<Vec<Burst>>)
    requires
        grid.wf(),
        plan_suits(grid@, old(state)@.snapshot, nested(*plan)),
    ensures
        final(state)@ == generated(old(state)@, grid@, nested(*plan)),
        trails_fit(final(state)@.trails, grid@),
{
    let lowest = cutoffs(state, grid);
    generate_from(state, grid, &lowest, plan);
    proof {
        lemma_generated_fits(old(state)@, grid@, nested(*plan));
    }
}

/// Generates trails with bursts drawn at random, and hands back the plan
/// that was drawn as a ghost.
fn generate_drawn(state: &mut MatrixUndo, grid: &Grid) -> (plan: Ghost<Seq<Seq<Burst>>>)
    requires
        grid.wf(),
    ensures
        plan_suits(grid@, old(state)@.snapshot, plan@),
        final(state)@ == generated(old(state)@, grid@, plan@),
        trails_fit(final(state)@.trails, grid@),
{
    let lowest = cutoffs(state, grid);
    let drawn = draw_plan(grid, &lowest);
    generate_from(state, grid, &lowest, &drawn);
    proof {
        lemma_generated_fits(old(state)@, grid@, nested(drawn));
    }
    Ghost(nested(drawn))
}

/// Generates trails from the grid with bursts drawn at random, and takes a
/// fresh snapshot of the grid. Whatever is drawn, the result is what some
/// suitable plan gives.
pub fn generate(state: &mut MatrixUndo, grid: &Grid)
    requires
        grid.wf(),
    ensures
        exists|plan: Seq<Seq<Burst>>|
            plan_suits(grid@, old(state)@.snapshot, plan) && final(state)@ == #[trigger] generated(
                old(state)@,
                grid@,
                plan,
            ),
        trails_fit(final(state)@.trails, grid@),
{
    let _ = generate_drawn(state, grid);
}

/// Steps every trail; reports whether any of them lost a synthetic entry.
pub fn step_columns(columns: &mut Vec<Vec<TrailEntry>>) -> (unreal_char_found: bool)
    ensures
        nested(*final(columns)) == stepped_trails(nested(*old(columns))),
        unreal_char_found == makes_progress(nested(*old(columns))),
{
    let mut unreal_char_found = false;
    let mut col_index: usize = 0;
    let ghost before = nested(*columns);
    while col_index < columns.len()
        invariant
            before == nested(*old(columns)),
            columns@.len() == before.len(),
            col_index <= columns@.len(),
            forall|c: int|
                0 <= c < col_index ==> (#[trigger] columns@[c])@ == step_trail(before[c]),
            forall|c: int|
                col_index <= c < columns@.len() ==> (#[trigger] columns@[c])@ == before[c],
            unreal_char_found == exists|c: int|
                0 <= c < col_index && last_synthetic(#[trigger] before[c]) >= 0,
        decreases columns@.len() - col_index,
    {
        let removed = step_column(&mut columns[col_index]);
        if removed {
            unreal_char_found = true;
        }
        col_index += 1;
    }
    assert(nested(*columns) =~= stepped_trails(before));
    unreal_char_found
}

/// The stepper: lets every trail fall by one step and shows the result on
/// the grid; once nothing falls any more, takes the rest snapshot if none
/// exists yet.
pub fn step(state: &mut MatrixUndo, grid: &mut Grid) -> (progress: bool)
    requires
        old(grid).wf(),
        old(state)@.trails.len() == 0 || trails_fit(old(state)@.trails, old(grid)@),
    ensures
        final(grid).wf(),
        final(state)@ == step_result(old(state)@, old(grid)@).0,
        final(grid)@ == step_result(old(state)@, old(grid)@).1,
        progress == (old(state)@.trails.len() > 0 && makes_progress(old(state)@.trails)),
{
    if state.columns.is_empty() {
        return false;
    }
    let unreal_char_found = step_columns(&mut state.columns);
    if unreal_char_found {
        proof {
            lemma_stepped_fits(old(state)@.trails, grid@);
        }
        render(&state.columns, grid);
    } else {
        assert forall|c: int| 0 <= c < old(state)@.trails.len() implies #[trigger] stepped_trails(
            old(state)@.trails,
        )[c] == old(state)@.trails[c] by {
            lemma_step_trail(old(state)@.trails[c]);
        }
        assert(state@.trails =~= old(state)@.trails);
        if state.original_columns.is_empty() {
            state.original_columns = screen_shot(grid);
        }
    }
    assert(state@ =~= step_result(old(state)@, old(grid)@).0);
    unreal_char_found
}

/// One tick of the overlay with the bursts given rather than drawn: advance
/// the tick counter, reconcile with the outside writer, generate trails from
/// `plan` if none are active and the cooldown has passed, and step.
pub fn tick_with(state: &mut MatrixUndo, grid: &mut Grid, plan: &Vec<Vec<Burst>>)
    requires
        old(grid).wf(),
        generation_due(reconciled(advanced(old(state)@), old(grid)@).0) ==> plan_suits(
            reconciled(advanced(old(state)@), old(grid)@).1,
            reconciled(advanced(old(state)@), old(grid)@).0.snapshot,
            nested(*plan),
        ),
    ensures
        final(grid).wf(),
        final(state)@ == tick_result(old(state)@, old(grid)@, nested(*plan)).0,
        final(grid)@ == tick_result(old(state)@, old(grid)@, nested(*plan)).1,
        final(state)@.trails.len() > 0 ==> trails_fit(final(state)@.trails, final(grid)@)
            && !drifted(final(state)@.trails, final(grid)@),
{
    if state.tick < u64::MAX {
        state.tick = state.tick + 1;
    }
    assert(state@ =~= advanced(old(state)@));
    reconcile(state, grid);
    if state.columns.is_empty() && state.cooldown_elapsed() {
        generate_with(state, grid, plan);
    }
    step(state, grid);
    proof {
        lemma_tick_mirrors_trails(old(state)@, old(grid)@, nested(*plan));
    }
}

/// One tick of the overlay: advance the tick counter, reconcile with the
/// outside writer, generate trails if none are active and the cooldown has
/// passed, and step. The result is what `tick_result` gives for some plan
/// of bursts that the random draws can give.
pub fn tick(state: &mut MatrixUndo, grid: &mut Grid)
    requires
        old(grid).wf(),
    ensures
        final(grid).wf(),
        exists|plan: Seq<Seq<Burst>>|
            tick_outcome(old(state)@, old(grid)@, plan, (final(state)@, final(grid)@)),
        final(state)@.trails.len() > 0 ==> trails_fit(final(state)@.trails, final(grid)@)
            && !drifted(final(state)@.trails, final(grid)@),
{
    if state.tick < u64::MAX {
        state.tick = state.tick + 1;
    }
    assert(state@ =~= advanced(old(state)@));
    reconcile(state, grid);
    let ghost mut plan: Seq<Seq<Burst>> = Seq::empty();
    if state.columns.is_empty() && state.cooldown_elapsed() {
        let drawn = generate_drawn(state, grid);
        proof {
            plan = drawn@;
        }
    }
    step(state, grid);
    proof {
        lemma_tick_mirrors_trails(old(state)@, old(grid)@, plan);
    }
    assert(tick_outcome(old(state)@, old(grid)@, plan, (state@, grid@)));
}

} // verus!
