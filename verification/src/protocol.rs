//! The reclamation protocol as a transition system, and its safety proof.
//!
//! The executable code reads and writes shared cells one atomic access at a time, and
//! its contracts say what it does with each value it reads. This module puts those
//! accesses together: a [`World`] holds the shared cells, the registry, what each
//! lessee of a slot has established, and one thread's retirement queue; a [`Step`] is
//! one atomic access by some thread, together with the decision taken on the value
//! read. The decisions are the same spec functions that the contracts use:
//! `validation` for a reader's check, `hazards_of` for a scan, `retained` and
//! `released` for a collection.
//!
//! Steps of different threads interleave in any order. The theorems hold for every
//! such interleaving in which each access takes effect at once for all threads, which
//! is what sequentially consistent accesses and the fences around a scan are for.

use crate::hazard::validation;
use crate::snapshot::{hazards_of, lemma_released_contains, lemma_retained_contains, released, retained};
use vstd::prelude::*;

verus! {

/// One slot of the registry.
pub struct Slot {
    /// Whether the slot is leased.
    pub active: bool,
    /// The published address, `0` for none.
    pub hazard: usize,
}

/// What the lessee of a slot has established.
pub enum Phase {
    /// Nothing: the slot is free, or its lessee has not published since the lease.
    Idle,
    /// The address is published but not validated: the lessee may not use it yet.
    Published(usize),
    /// The address is published and some shared cell was seen to hold it after the
    /// publication: the lessee may use the object.
    Protected(usize),
}

/// A scan of the registry in progress.
pub struct Scan {
    /// Number of slots that existed when the scan began.
    pub start_len: nat,
    /// The values observed so far, one per slot, in table order.
    pub seen: Seq<usize>,
    /// The slots that were written since the scan began.
    pub changed: Set<int>,
}

/// The state that the threads share, and the state of one retirement queue.
pub struct World<D> {
    /// The shared cells from which readers load addresses.
    pub cells: Seq<usize>,
    /// The registry.
    pub slots: Seq<Slot>,
    /// What the lessee of each slot has established.
    pub phases: Seq<Phase>,
    /// Addresses that were unlinked from every cell and are not in the queue: not
    /// retired yet, or retired to the queue of another thread.
    pub limbo: Set<usize>,
    /// The queue: retired entries that are not released yet.
    pub buffer: Seq<(usize, D)>,
    /// The scan that the queue's owner is making, if it is making one.
    pub scan: Option<Scan>,
}

/// One atomic step of some thread.
pub enum Step<D> {
    /// The table grows by `count` free slots.
    Grow { count: nat },
    /// A thread takes the lease of a free slot.
    Lease { slot: int },
    /// The lessee of a slot stores `value` in it.
    Publish { slot: int, value: usize },
    /// The lessee of a slot reads a cell and compares it with what it publishes.
    Validate { slot: int, cell: int },
    /// The lessee of a slot gives the slot back.
    Release { slot: int },
    /// A writer stores `new` in a cell. The address that the cell held is unlinked
    /// if no other cell holds it.
    Unlink { cell: int, new: usize },
    /// The queue's owner retires an unlinked address.
    Retire { address: usize, payload: D },
    /// The queue's owner begins a scan.
    ScanStart,
    /// The queue's owner reads the next slot.
    ScanStep,
    /// The queue's owner, having read every slot that existed when the scan began,
    /// releases the entries whose address is not in the snapshot.
    Collect,
}

/// The table after `count` free slots were appended.
pub open spec fn grown(slots: Seq<Slot>, count: nat) -> Seq<Slot> {
    slots + Seq::new(count, |i: int| Slot { active: false, hazard: 0 })
}

impl<D> World<D> {
    /// The world before any step: the cells hold `cells`, the table has no slot, and
    /// nothing is retired.
    pub open spec fn init(cells: Seq<usize>) -> World<D> {
        World {
            cells,
            slots: Seq::empty(),
            phases: Seq::empty(),
            limbo: Set::empty(),
            buffer: Seq::empty(),
            scan: None,
        }
    }

    /// The lessee of slot `i` has published and validated `v`.
    pub open spec fn protects(self, i: int, v: usize) -> bool {
        0 <= i < self.phases.len() && self.phases[i] == Phase::Protected(v)
    }

    /// The queue holds an entry for address `v`.
    pub open spec fn retired(self, v: usize) -> bool {
        exists|j: int| 0 <= j < self.buffer.len() && (#[trigger] self.buffer[j]).0 == v
    }

    /// Whether `step` can be taken in this world.
    pub open spec fn enabled(self, step: Step<D>) -> bool {
        match step {
            Step::Grow { count } => true,
            Step::Lease { slot } => 0 <= slot < self.slots.len() && !self.slots[slot].active,
            Step::Publish { slot, value } => 0 <= slot < self.slots.len()
                && self.slots[slot].active,
            Step::Validate { slot, cell } => 0 <= slot < self.slots.len() && 0 <= cell
                < self.cells.len() && self.slots[slot].active && self.phases[slot]
                != Phase::Idle,
            Step::Release { slot } => 0 <= slot < self.slots.len() && self.slots[slot].active,
            Step::Unlink { cell, new } => 0 <= cell < self.cells.len() && !self.limbo.contains(new)
                && !self.retired(new),
            Step::Retire { address, payload } => self.scan is None && self.limbo.contains(
                address,
            ),
            Step::ScanStart => self.scan is None,
            Step::ScanStep => self.scan is Some && self.scan->0.seen.len() < self.slots.len(),
            Step::Collect => self.scan is Some && self.scan->0.seen.len()
                >= self.scan->0.start_len,
        }
    }

    /// The scan after slot `slot` was written, if a scan is in progress.
    pub open spec fn scan_after_write(self, slot: int) -> Option<Scan> {
        match self.scan {
            Some(scan) => Some(Scan { changed: scan.changed.insert(slot), ..scan }),
            None => None,
        }
    }

    /// The world after `step`.
    pub open spec fn next(self, step: Step<D>) -> World<D> {
        match step {
            Step::Grow { count } => World {
                slots: grown(self.slots, count),
                phases: self.phases + Seq::new(count, |i: int| Phase::Idle),
                ..self
            },
            Step::Lease { slot } => World {
                slots: self.slots.update(slot, Slot { active: true, ..self.slots[slot] }),
                phases: self.phases.update(slot, Phase::Idle),
                ..self
            },
            Step::Publish { slot, value } => World {
                slots: self.slots.update(slot, Slot { hazard: value, ..self.slots[slot] }),
                phases: self.phases.update(slot, Phase::Published(value)),
                scan: self.scan_after_write(slot),
                ..self
            },
            Step::Validate { slot, cell } => {
                let value = self.slots[slot].hazard;
                if validation(value, self.cells[cell]) is Ok {
                    World { phases: self.phases.update(slot, Phase::Protected(value)), ..self }
                } else {
                    self
                }
            },
            Step::Release { slot } => World {
                slots: self.slots.update(slot, Slot { active: false, ..self.slots[slot] }),
                phases: self.phases.update(slot, Phase::Idle),
                ..self
            },
            Step::Unlink { cell, new } => {
                let old = self.cells[cell];
                let cells = self.cells.update(cell, new);
                World {
                    cells,
                    limbo: if old != 0 && !cells.contains(old) {
                        self.limbo.insert(old)
                    } else {
                        self.limbo
                    },
                    ..self
                }
            },
            Step::Retire { address, payload } => World {
                limbo: self.limbo.remove(address),
                buffer: self.buffer.push((address, payload)),
                ..self
            },
            Step::ScanStart => World {
                scan: Some(
                    Scan { start_len: self.slots.len(), seen: Seq::empty(), changed: Set::empty() },
                ),
                ..self
            },
            Step::ScanStep => {
                let scan = self.scan->0;
                World {
                    scan: Some(
                        Scan {
                            seen: scan.seen.push(self.slots[scan.seen.len() as int].hazard),
                            ..scan
                        },
                    ),
                    ..self
                }
            },
            Step::Collect => World {
                buffer: retained(self.buffer, hazards_of(self.scan->0.seen)),
                scan: None,
                ..self
            },
        }
    }

    /// What every reachable world satisfies.
    pub open spec fn inv(self) -> bool {
        &&& self.phases.len() == self.slots.len()
        // A lessee's claim is about the value that its slot holds.
        &&& forall|i: int|
            0 <= i < self.phases.len() ==> match #[trigger] self.phases[i] {
                Phase::Idle => true,
                Phase::Published(v) => self.slots[i].hazard == v,
                Phase::Protected(v) => self.slots[i].hazard == v,
            }
        // What is unlinked is in no cell, and is not null.
        &&& !self.limbo.contains(0)
        &&& forall|v: usize, c: int|
            #[trigger] self.limbo.contains(v) && 0 <= c < self.cells.len() ==> #[trigger] self.cells[c]
                != v
        &&& forall|j: int| 0 <= j < self.buffer.len() ==> (#[trigger] self.buffer[j]).0 != 0
        &&& forall|j: int, c: int|
            0 <= j < self.buffer.len() && 0 <= c < self.cells.len() ==> #[trigger] self.cells[c]
                != (#[trigger] self.buffer[j]).0
        // A scan has seen the address of every retired entry that some lessee
        // protects, as far as it has come.
        &&& self.scan matches Some(scan) ==> {
            &&& scan.start_len <= self.slots.len()
            &&& scan.seen.len() <= self.slots.len()
            &&& forall|i: int|
                0 <= i < scan.seen.len() && !scan.changed.contains(i) ==> #[trigger] scan.seen[i]
                    == self.slots[i].hazard
            &&& forall|i: int, j: int|
                0 <= i < self.phases.len() && 0 <= j < self.buffer.len() && #[trigger] self.phases[i]
                    == Phase::Protected((#[trigger] self.buffer[j]).0) ==> i < scan.start_len && (i
                    < scan.seen.len() ==> scan.seen[i] == self.buffer[j].0)
        }
    }

    /// The world after the steps `steps`, taken in order.
    pub open spec fn run(self, steps: Seq<Step<D>>) -> World<D>
        decreases steps.len(),
    {
        if steps.len() == 0 {
            self
        } else {
            self.run(steps.drop_last()).next(steps.last())
        }
    }

    /// Whether each of `steps` can be taken when its turn comes.
    pub open spec fn admits(self, steps: Seq<Step<D>>) -> bool
        decreases steps.len(),
    {
        steps.len() > 0 ==> self.admits(steps.drop_last()) && self.run(steps.drop_last()).enabled(
            steps.last(),
        )
    }
}

/// The world before any step satisfies the invariant.
pub proof fn lemma_init_inv<D>(cells: Seq<usize>)
    ensures
        World::<D>::init(cells).inv(),
{
}

/// Every step preserves the invariant.
pub proof fn lemma_step_preserves_inv<D>(w: World<D>, step: Step<D>)
    requires
        w.inv(),
        w.enabled(step),
    ensures
        w.next(step).inv(),
{
    let n = w.next(step);
    match step {
        Step::Grow { count } => {
            assert forall|i: int| 0 <= i < n.phases.len() implies match #[trigger] n.phases[i] {
                Phase::Idle => true,
                Phase::Published(v) => n.slots[i].hazard == v,
                Phase::Protected(v) => n.slots[i].hazard == v,
            } by {
                if i < w.phases.len() {
                    assert(n.phases[i] == w.phases[i]);
                    assert(n.slots[i] == w.slots[i]);
                }
            }
            if let Some(scan) = n.scan {
                assert forall|i: int| 0 <= i < scan.seen.len() && !scan.changed.contains(
                    i,
                ) implies #[trigger] scan.seen[i] == n.slots[i].hazard by {
                    assert(n.slots[i] == w.slots[i]);
                }
                assert forall|i: int, j: int|
                    0 <= i < n.phases.len() && 0 <= j < n.buffer.len() && #[trigger] n.phases[i]
                        == Phase::Protected((#[trigger] n.buffer[j]).0) implies i < scan.start_len
                    && (i < scan.seen.len() ==> scan.seen[i] == n.buffer[j].0) by {
                    if i < w.phases.len() {
                        assert(n.phases[i] == w.phases[i]);
                    }
                }
            }
        },
        Step::Lease { slot } => {
        },
        Step::Publish { slot, value } => {
        },
        Step::Validate { slot, cell } => {
        },
        Step::Release { slot } => {
        },
        Step::Unlink { cell, new } => {
            let old = w.cells[cell];
            assert forall|v: usize, c: int|
                #[trigger] n.limbo.contains(v) && 0 <= c < n.cells.len() implies #[trigger] n.cells[c]
                != v by {
                if w.limbo.contains(v) {
                    if c != cell {
                        assert(n.cells[c] == w.cells[c]);
                    }
                } else {
                    assert(v == old);
                    assert(!n.cells.contains(old));
                }
            }
            assert forall|j: int, c: int|
                0 <= j < n.buffer.len() && 0 <= c < n.cells.len() implies #[trigger] n.cells[c] != (
            #[trigger] n.buffer[j]).0 by {
                if c != cell {
                    assert(n.cells[c] == w.cells[c]);
                }
            }
        },
        Step::Retire { address, payload } => {
            assert forall|j: int| 0 <= j < n.buffer.len() implies (#[trigger] n.buffer[j]).0
                != 0 by {
                if j < w.buffer.len() {
                    assert(n.buffer[j] == w.buffer[j]);
                }
            }
            assert forall|j: int, c: int|
                0 <= j < n.buffer.len() && 0 <= c < n.cells.len() implies #[trigger] n.cells[c] != (
            #[trigger] n.buffer[j]).0 by {
                if j < w.buffer.len() {
                    assert(n.buffer[j] == w.buffer[j]);
                }
            }
        },
        Step::ScanStart => {
        },
        Step::ScanStep => {
        },
        Step::Collect => {
            let snapshot = hazards_of(w.scan->0.seen);
            assert forall|j: int| 0 <= j < n.buffer.len() implies w.buffer.contains(
                #[trigger] n.buffer[j],
            ) by {
                lemma_retained_contains(w.buffer, snapshot, n.buffer[j]);
            }
            assert forall|j: int| 0 <= j < n.buffer.len() implies (#[trigger] n.buffer[j]).0
                != 0 by {
                assert(w.buffer.contains(n.buffer[j]));
            }
            assert forall|j: int, c: int|
                0 <= j < n.buffer.len() && 0 <= c < n.cells.len() implies #[trigger] n.cells[c] != (
            #[trigger] n.buffer[j]).0 by {
                assert(w.buffer.contains(n.buffer[j]));
            }
        },
    }
}

/// Every world that admissible steps lead to satisfies the invariant.
pub proof fn lemma_reachable_inv<D>(cells: Seq<usize>, steps: Seq<Step<D>>)
    requires
        World::<D>::init(cells).admits(steps),
    ensures
        World::<D>::init(cells).run(steps).inv(),
    decreases steps.len(),
{
    if steps.len() == 0 {
        lemma_init_inv::<D>(cells);
    } else {
        lemma_reachable_inv::<D>(cells, steps.drop_last());
        lemma_step_preserves_inv(World::<D>::init(cells).run(steps.drop_last()), steps.last());
    }
}

/// Safety. In every world that admissible steps lead to, a collection releases no
/// entry whose address some lessee has published and validated: whatever the
/// interleaving, an object is not destroyed while a shield protects it.
pub proof fn theorem_protected_is_not_released<D>(
    cells: Seq<usize>,
    steps: Seq<Step<D>>,
    i: int,
    v: usize,
    e: (usize, D),
)
    requires
        World::<D>::init(cells).admits(steps),
        World::<D>::init(cells).run(steps).enabled(Step::Collect),
        World::<D>::init(cells).run(steps).protects(i, v),
        released(
            World::<D>::init(cells).run(steps).buffer,
            hazards_of(World::<D>::init(cells).run(steps).scan->0.seen),
        ).contains(e),
    ensures
        e.0 != v,
{
    let w = World::<D>::init(cells).run(steps);
    lemma_reachable_inv::<D>(cells, steps);
    let scan = w.scan->0;
    let snapshot = hazards_of(scan.seen);
    lemma_released_contains(w.buffer, snapshot, e);
    if e.0 == v {
        let j = choose|j: int| 0 <= j < w.buffer.len() && w.buffer[j] == e;
        assert(w.phases[i] == Phase::Protected(w.buffer[j].0));
        assert(scan.seen[i] == v);
        assert(scan.seen.contains(v));
        assert(snapshot.contains(v));
    }
}

/// Safety, seen from the queue: what a lessee protects and the queue holds stays in
/// the queue through the collection.
pub proof fn theorem_protected_stays_retired<D>(
    cells: Seq<usize>,
    steps: Seq<Step<D>>,
    i: int,
    j: int,
)
    requires
        World::<D>::init(cells).admits(steps),
        World::<D>::init(cells).run(steps).enabled(Step::Collect),
        0 <= j < World::<D>::init(cells).run(steps).buffer.len(),
        World::<D>::init(cells).run(steps).protects(
            i,
            World::<D>::init(cells).run(steps).buffer[j].0,
        ),
    ensures
        World::<D>::init(cells).run(steps).next(Step::Collect).buffer.contains(
            World::<D>::init(cells).run(steps).buffer[j],
        ),
{
    let w = World::<D>::init(cells).run(steps);
    lemma_reachable_inv::<D>(cells, steps);
    let scan = w.scan->0;
    let snapshot = hazards_of(scan.seen);
    let v = w.buffer[j].0;
    assert(w.phases[i] == Phase::Protected(w.buffer[j].0));
    assert(scan.seen[i] == v);
    assert(scan.seen.contains(v));
    assert(snapshot.contains(v));
    assert(w.buffer.contains(w.buffer[j]));
    lemma_retained_contains(w.buffer, snapshot, w.buffer[j]);
}

/// Snapshot coverage. When a scan has read every slot that existed when it began,
/// its snapshot holds every address that one of those slots published throughout
/// the scan.
pub proof fn theorem_snapshot_covers_steady_slots<D>(
    cells: Seq<usize>,
    steps: Seq<Step<D>>,
    i: int,
)
    requires
        World::<D>::init(cells).admits(steps),
        World::<D>::init(cells).run(steps).enabled(Step::Collect),
        0 <= i < World::<D>::init(cells).run(steps).scan->0.start_len,
        !World::<D>::init(cells).run(steps).scan->0.changed.contains(i),
        World::<D>::init(cells).run(steps).slots[i].hazard != 0,
    ensures
        hazards_of(World::<D>::init(cells).run(steps).scan->0.seen).contains(
            World::<D>::init(cells).run(steps).slots[i].hazard,
        ),
{
    let w = World::<D>::init(cells).run(steps);
    lemma_reachable_inv::<D>(cells, steps);
    let scan = w.scan->0;
    assert(scan.seen[i] == w.slots[i].hazard);
    assert(scan.seen.contains(w.slots[i].hazard));
}

/// A collection after a scan that saw none of the queue's addresses releases the
/// whole queue: once no shield publishes what was retired, one more round ends the
/// drain.
pub proof fn theorem_quiet_scan_empties_queue<D>(cells: Seq<usize>, steps: Seq<Step<D>>)
    requires
        World::<D>::init(cells).admits(steps),
        World::<D>::init(cells).run(steps).enabled(Step::Collect),
        forall|i: int|
            0 <= i < World::<D>::init(cells).run(steps).scan->0.seen.len()
                ==> !World::<D>::init(cells).run(steps).retired(
                #[trigger] World::<D>::init(cells).run(steps).scan->0.seen[i],
            ),
    ensures
        World::<D>::init(cells).run(steps).next(Step::Collect).buffer.len() == 0,
{
    let w = World::<D>::init(cells).run(steps);
    let seen = w.scan->0.seen;
    let snapshot = hazards_of(seen);
    let kept = retained(w.buffer, snapshot);
    if kept.len() > 0 {
        let e = kept[0];
        assert(kept.contains(e));
        lemma_retained_contains(w.buffer, snapshot, e);
        let j = choose|j: int| 0 <= j < w.buffer.len() && w.buffer[j] == e;
        let i = choose|i: int| 0 <= i < seen.len() && seen[i] == e.0;
        assert(w.buffer[j].0 == seen[i]);
        assert(w.retired(seen[i]));
    }
}

/// Number of leased slots in a table.
pub open spec fn leased(slots: Seq<Slot>) -> nat
    decreases slots.len(),
{
    if slots.len() == 0 {
        0
    } else if slots.last().active {
        leased(slots.drop_last()) + 1
    } else {
        leased(slots.drop_last())
    }
}

/// Position of the first free slot at or after `from`, or the length of the table if
/// there is none.
pub open spec fn first_free(slots: Seq<Slot>, from: int) -> int
    decreases slots.len() - from,
{
    if from < 0 || from >= slots.len() {
        slots.len() as int
    } else if !slots[from].active {
        from
    } else {
        first_free(slots, from + 1)
    }
}

/// What one thread asks of an otherwise idle registry.
pub enum IdleOp {
    /// Lease a slot: the first free one, or the first of a fresh segment of `grow`
    /// slots if none is free.
    Acquire { grow: nat },
    /// Give slot `slot` back.
    Release { slot: int },
}

impl<D> World<D> {
    /// The world after `op`, when no other thread takes a step meanwhile.
    pub open spec fn idle_next(self, op: IdleOp) -> World<D> {
        match op {
            IdleOp::Acquire { grow } => {
                let free = first_free(self.slots, 0);
                if free < self.slots.len() {
                    self.next(Step::Lease { slot: free })
                } else {
                    self.next(Step::Grow { count: grow }).next(Step::Lease { slot: free })
                }
            },
            IdleOp::Release { slot } => self.next(Step::Release { slot }),
        }
    }

    /// The world after the operations `ops`, in order.
    pub open spec fn idle_run(self, ops: Seq<IdleOp>) -> World<D>
        decreases ops.len(),
    {
        if ops.len() == 0 {
            self
        } else {
            self.idle_run(ops.drop_last()).idle_next(ops.last())
        }
    }

    /// Whether `ops` asks for a lease only while fewer than `limit` slots are leased,
    /// and gives back only slots that are leased.
    pub open spec fn idle_within(self, ops: Seq<IdleOp>, limit: nat) -> bool
        decreases ops.len(),
    {
        ops.len() > 0 ==> self.idle_within(ops.drop_last(), limit) && match ops.last() {
            IdleOp::Acquire { grow } => leased(self.idle_run(ops.drop_last()).slots) < limit,
            IdleOp::Release { slot } => self.idle_run(ops.drop_last()).enabled(
                Step::Release { slot },
            ),
        }
    }
}

/// The search for a free slot ends on a free slot or at the end of the table, and
/// every slot it passed is leased.
pub proof fn lemma_first_free(slots: Seq<Slot>, from: int)
    requires
        0 <= from <= slots.len(),
    ensures
        from <= first_free(slots, from) <= slots.len(),
        first_free(slots, from) < slots.len() ==> !slots[first_free(slots, from)].active,
        forall|i: int| from <= i < first_free(slots, from) ==> (#[trigger] slots[i]).active,
    decreases slots.len() - from,
{
    if from < slots.len() && slots[from].active {
        lemma_first_free(slots, from + 1);
    }
}

/// A table of which every slot is leased counts as many leases as it has slots.
pub proof fn lemma_leased_full(slots: Seq<Slot>)
    requires
        forall|i: int| 0 <= i < slots.len() ==> (#[trigger] slots[i]).active,
    ensures
        leased(slots) == slots.len(),
    decreases slots.len(),
{
    if slots.len() > 0 {
        let front = slots.drop_last();
        assert forall|i: int| 0 <= i < front.len() implies (#[trigger] front[i]).active by {
            assert(front[i] == slots[i]);
        }
        lemma_leased_full(front);
    }
}

/// Writing the flag of one slot changes the count by that slot alone.
pub proof fn lemma_leased_update(slots: Seq<Slot>, i: int, slot: Slot)
    requires
        0 <= i < slots.len(),
    ensures
        leased(slots.update(i, slot)) + (if slots[i].active {
            1nat
        } else {
            0nat
        }) == leased(slots) + (if slot.active {
            1nat
        } else {
            0nat
        }),
    decreases slots.len(),
{
    let after = slots.update(i, slot);
    if i == slots.len() - 1 {
        assert(after.drop_last() =~= slots.drop_last());
    } else {
        assert(after.drop_last() =~= slots.drop_last().update(i, slot));
        assert(after.last() == slots.last());
        lemma_leased_update(slots.drop_last(), i, slot);
    }
}

/// Fresh slots are free: growing the table leaves the count as it is.
pub proof fn lemma_leased_grown(slots: Seq<Slot>, count: nat)
    ensures
        leased(grown(slots, count)) == leased(slots),
        grown(slots, count).len() == slots.len() + count,
    decreases count,
{
    if count == 0 {
        assert(grown(slots, count) =~= slots);
    } else {
        lemma_leased_grown(slots, (count - 1) as nat);
        assert(grown(slots, count).drop_last() =~= grown(slots, (count - 1) as nat));
    }
}

/// One operation on an idle registry: a lease adds one to the count and grows the
/// table only if every slot is leased; a release takes one from the count and
/// leaves the table as long as it is.
pub proof fn lemma_idle_next<D>(w: World<D>, op: IdleOp)
    requires
        op matches IdleOp::Release { slot } ==> w.enabled(Step::Release { slot }),
        op matches IdleOp::Acquire { grow } ==> grow > 0,
    ensures
        op is Acquire ==> leased(w.idle_next(op).slots) == leased(w.slots) + 1,
        op is Release ==> leased(w.idle_next(op).slots) + 1 == leased(w.slots),
        op is Release || leased(w.slots) < w.slots.len() ==> w.idle_next(op).slots.len()
            == w.slots.len(),
        w.idle_next(op).slots.len() >= w.slots.len(),
{
    match op {
        IdleOp::Acquire { grow } => {
            let free = first_free(w.slots, 0);
            lemma_first_free(w.slots, 0);
            if free < w.slots.len() {
                lemma_leased_update(w.slots, free, Slot { active: true, ..w.slots[free] });
            } else {
                lemma_leased_full(w.slots);
                lemma_leased_grown(w.slots, grow);
                let bigger = grown(w.slots, grow);
                assert(!bigger[free].active);
                lemma_leased_update(bigger, free, Slot { active: true, ..bigger[free] });
            }
        },
        IdleOp::Release { slot } => {
            lemma_leased_update(w.slots, slot, Slot { active: false, ..w.slots[slot] });
        },
    }
}

/// Recycling. On an otherwise idle registry, leases and releases in any order leave
/// the table as long as it was, provided that no lease is asked for while as many
/// slots are leased as the table had at the start.
pub proof fn theorem_recycling_keeps_table<D>(w: World<D>, ops: Seq<IdleOp>)
    requires
        w.idle_within(ops, w.slots.len()),
    ensures
        w.idle_run(ops).slots.len() == w.slots.len(),
    decreases ops.len(),
{
    if ops.len() > 0 {
        let before = w.idle_run(ops.drop_last());
        theorem_recycling_keeps_table(w, ops.drop_last());
        match ops.last() {
            IdleOp::Acquire { grow } => {
                let free = first_free(before.slots, 0);
                lemma_first_free(before.slots, 0);
                if free >= before.slots.len() {
                    lemma_leased_full(before.slots);
                }
            },
            IdleOp::Release { slot } => {
            },
        }
    }
}

} // verus!
