//! Trails: per-column queues of cells that drain towards the bottom line.

use vstd::prelude::*;
use crate::cell::Cell;

verus! {

/// One entry of a trail, tagged with where its cell came from.
#[derive(Clone, Copy, Debug, PartialEq, Eq, Structural)]
pub enum TrailEntry {
    /// Genuine grid content.
    Real(Cell),
    /// A transient cell introduced by the overlay.
    Synthetic(Cell),
}

impl TrailEntry {
    /// The cell the entry carries, whatever its provenance.
    pub open spec fn content(self) -> Cell {
        match self {
            TrailEntry::Real(c) => c,
            TrailEntry::Synthetic(c) => c,
        }
    }

    /// The cell the entry carries.
    pub fn cell(&self) -> (c: Cell)
        ensures
            c == self.content(),
    {
        match self {
            TrailEntry::Real(c) => *c,
            TrailEntry::Synthetic(c) => *c,
        }
    }

    /// Whether the entry is genuine grid content.
    pub fn is_real(&self) -> (b: bool)
        ensures
            b == (*self is Real),
    {
        match self {
            TrailEntry::Real(_) => true,
            TrailEntry::Synthetic(_) => false,
        }
    }
}

/// The cells of the real entries of a trail, in order.
pub open spec fn real_cells(trail: Seq<TrailEntry>) -> Seq<Cell>
    decreases trail.len(),
{
    if trail.len() == 0 {
        Seq::empty()
    } else {
        let rest = real_cells(trail.drop_last());
        match trail.last() {
            TrailEntry::Real(c) => rest.push(c),
            TrailEntry::Synthetic(_) => rest,
        }
    }
}

/// A trail that holds the given cells as real entries and nothing else.
pub open spec fn real_only(cells: Seq<Cell>) -> Seq<TrailEntry> {
    Seq::new(cells.len(), |i: int| TrailEntry::Real(cells[i]))
}

/// Index of the synthetic entry nearest the bottom, or -1 if there is none.
pub open spec fn last_synthetic(trail: Seq<TrailEntry>) -> int
    decreases trail.len(),
{
    if trail.len() == 0 {
        -1
    } else if trail.last() is Synthetic {
        trail.len() - 1
    } else {
        last_synthetic(trail.drop_last())
    }
}

/// One step of a trail: the synthetic entry nearest the bottom falls out.
/// A trail without synthetic entries stays as it is.
pub open spec fn step_trail(trail: Seq<TrailEntry>) -> Seq<TrailEntry> {
    let i = last_synthetic(trail);
    if i < 0 {
        trail
    } else {
        trail.remove(i)
    }
}

/// A trail after `k` steps.
pub open spec fn stepped(trail: Seq<TrailEntry>, k: nat) -> Seq<TrailEntry>
    decreases k,
{
    if k == 0 {
        trail
    } else {
        stepped(step_trail(trail), (k - 1) as nat)
    }
}

/// The cells a trail shows on a grid of `lines` lines: its last `lines` entries.
pub open spec fn window(trail: Seq<TrailEntry>, lines: nat) -> Seq<Cell> {
    Seq::new(lines, |r: int| trail[trail.len() - lines + r].content())
}

/// `last_synthetic` is in range, points at a synthetic entry, and only real
/// entries lie below it.
pub proof fn lemma_last_synthetic(trail: Seq<TrailEntry>)
    ensures
        -1 <= last_synthetic(trail) < trail.len(),
        last_synthetic(trail) >= 0 ==> trail[last_synthetic(trail)] is Synthetic,
        forall|j: int| last_synthetic(trail) < j < trail.len() ==> trail[j] is Real,
    decreases trail.len(),
{
    if trail.len() > 0 && !(trail.last() is Synthetic) {
        lemma_last_synthetic(trail.drop_last());
        assert forall|j: int| last_synthetic(trail) < j < trail.len() implies trail[j] is Real by {
            if j < trail.len() - 1 {
                assert(trail[j] == trail.drop_last()[j]);
            }
        }
    }
}

/// An index that points at a synthetic entry with only real entries below it
/// is the one `last_synthetic` names; so is -1 if every entry is real.
pub proof fn lemma_last_synthetic_unique(trail: Seq<TrailEntry>, i: int)
    requires
        -1 <= i < trail.len(),
        i >= 0 ==> trail[i] is Synthetic,
        forall|j: int| i < j < trail.len() ==> trail[j] is Real,
    ensures
        last_synthetic(trail) == i,
{
    lemma_last_synthetic(trail);
}

/// A trail has at least as many entries as real entries.
pub proof fn lemma_real_cells_len(trail: Seq<TrailEntry>)
    ensures
        real_cells(trail).len() <= trail.len(),
        real_cells(trail).len() == trail.len() <==> last_synthetic(trail) < 0,
    decreases trail.len(),
{
    if trail.len() > 0 {
        lemma_real_cells_len(trail.drop_last());
    }
}

/// Concatenating trails concatenates their real cells.
pub proof fn lemma_real_cells_concat(a: Seq<TrailEntry>, b: Seq<TrailEntry>)
    ensures
        real_cells(a + b) == real_cells(a) + real_cells(b),
    decreases b.len(),
{
    if b.len() == 0 {
        assert(a + b =~= a);
        assert(real_cells(a) + real_cells(b) =~= real_cells(a));
    } else {
        assert((a + b).drop_last() =~= a + b.drop_last());
        assert((a + b).last() == b.last());
        lemma_real_cells_concat(a, b.drop_last());
        assert(real_cells(a + b) =~= real_cells(a) + real_cells(b));
    }
}

/// A run of synthetic entries holds no real cell.
pub proof fn lemma_real_cells_of_synthetic(run: Seq<TrailEntry>)
    requires
        forall|i: int| 0 <= i < run.len() ==> run[i] is Synthetic,
    ensures
        real_cells(run) == Seq::<Cell>::empty(),
    decreases run.len(),
{
    if run.len() > 0 {
        let rest = run.drop_last();
        assert forall|i: int| 0 <= i < rest.len() implies rest[i] is Synthetic by {
            assert(rest[i] == run[i]);
        }
        lemma_real_cells_of_synthetic(rest);
    }
}

/// Taking a synthetic entry out of a trail leaves its real cells alone.
pub proof fn lemma_remove_synthetic(trail: Seq<TrailEntry>, i: int)
    requires
        0 <= i < trail.len(),
        trail[i] is Synthetic,
    ensures
        real_cells(trail.remove(i)) == real_cells(trail),
    decreases trail.len(),
{
    if i == trail.len() - 1 {
        assert(trail.remove(i) =~= trail.drop_last());
    } else {
        assert(trail.remove(i).drop_last() =~= trail.drop_last().remove(i));
        assert(trail.remove(i).last() == trail.last());
        lemma_remove_synthetic(trail.drop_last(), i);
    }
}

/// A step keeps the real cells; it shortens the trail by one exactly when the
/// trail still holds a synthetic entry.
pub proof fn lemma_step_trail(trail: Seq<TrailEntry>)
    ensures
        real_cells(step_trail(trail)) == real_cells(trail),
        last_synthetic(trail) >= 0 ==> step_trail(trail).len() == trail.len() - 1,
        last_synthetic(trail) < 0 ==> step_trail(trail) == trail,
{
    lemma_last_synthetic(trail);
    if last_synthetic(trail) >= 0 {
        lemma_remove_synthetic(trail, last_synthetic(trail));
    }
}

/// A trail whose entries are all real is the real-only trail of its cells.
pub proof fn lemma_all_real(trail: Seq<TrailEntry>)
    requires
        real_cells(trail).len() == trail.len(),
    ensures
        trail == real_only(real_cells(trail)),
    decreases trail.len(),
{
    if trail.len() > 0 {
        lemma_real_cells_len(trail.drop_last());
        lemma_all_real(trail.drop_last());
        let rest = trail.drop_last();
        assert(rest == real_only(real_cells(rest)));
        assert forall|i: int| 0 <= i < trail.len() implies trail[i] == real_only(
            real_cells(trail),
        )[i] by {
            if i < trail.len() - 1 {
                assert(trail[i] == rest[i]);
                assert(rest[i] == real_only(real_cells(rest))[i]);
            }
        }
    }
    assert(trail =~= real_only(real_cells(trail)));
}

/// The real cells of a real-only trail are the cells it was made from.
pub proof fn lemma_real_cells_of_real_only(cells: Seq<Cell>)
    ensures
        real_cells(real_only(cells)) == cells,
    decreases cells.len(),
{
    if cells.len() > 0 {
        assert(real_only(cells).drop_last() =~= real_only(cells.drop_last()));
        lemma_real_cells_of_real_only(cells.drop_last());
    }
    assert(real_cells(real_only(cells)) =~= cells);
}

/// Stepping a trail once for each synthetic entry it holds drains every
/// synthetic entry and leaves the real cells, in their order, as the whole
/// trail; so the window then shows exactly the real cells.
pub proof fn lemma_exhaustion(trail: Seq<TrailEntry>)
    ensures
        real_cells(trail).len() <= trail.len(),
        stepped(trail, (trail.len() - real_cells(trail).len()) as nat) == real_only(
            real_cells(trail),
        ),
        window(
            stepped(trail, (trail.len() - real_cells(trail).len()) as nat),
            real_cells(trail).len(),
        ) == real_cells(trail),
    decreases trail.len() - real_cells(trail).len(),
{
    lemma_real_cells_len(trail);
    let k = (trail.len() - real_cells(trail).len()) as nat;
    if k == 0 {
        lemma_all_real(trail);
    } else {
        lemma_step_trail(trail);
        lemma_exhaustion(step_trail(trail));
    }
    assert(window(real_only(real_cells(trail)), real_cells(trail).len()) =~= real_cells(trail));
}

/// Stepping a trail at least once for each synthetic entry it holds leaves
/// exactly its real cells, however many steps more are made.
pub proof fn lemma_drained_after(trail: Seq<TrailEntry>, k: nat)
    requires
        k >= trail.len() - real_cells(trail).len(),
    ensures
        stepped(trail, k) == real_only(real_cells(trail)),
        last_synthetic(stepped(trail, k)) < 0,
    decreases k,
{
    lemma_real_cells_len(trail);
    lemma_step_trail(trail);
    if last_synthetic(trail) < 0 {
        lemma_stepped_settles(trail, k);
        lemma_all_real(trail);
    } else {
        lemma_drained_after(step_trail(trail), (k - 1) as nat);
    }
}

/// Further steps leave a drained trail alone.
pub proof fn lemma_stepped_settles(trail: Seq<TrailEntry>, k: nat)
    requires
        last_synthetic(trail) < 0,
    ensures
        stepped(trail, k) == trail,
    decreases k,
{
    if k > 0 {
        lemma_stepped_settles(trail, (k - 1) as nat);
    }
}

/// Steps one trail: removes the synthetic entry nearest the bottom, if any,
/// and reports whether one was removed.
pub fn step_column(trail: &mut Vec<TrailEntry>) -> (removed: bool)
    ensures
        final(trail)@ == step_trail(old(trail)@),
        removed == (last_synthetic(old(trail)@) >= 0),
{
    let mut i: usize = trail.len();
    while i > 0
        invariant
            i <= trail@.len(),
            trail@ == old(trail)@,
            forall|j: int| i <= j < trail@.len() ==> trail@[j] is Real,
        decreases i,
    {
        if !trail[i - 1].is_real() {
            proof {
                lemma_last_synthetic_unique(trail@, i - 1);
            }
            trail.remove(i - 1);
            return true;
        }
        i -= 1;
    }
    proof {
        lemma_last_synthetic_unique(trail@, -1);
    }
    false
}

} // verus!
