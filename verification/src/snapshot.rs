//! What a scan of the registry yields, and what a collection does with it.
//!
//! A scan reads the published value of every slot once. The snapshot is the set of
//! values it saw, without the null value `0`. A collection keeps the retired entries
//! whose address is in the snapshot and releases all others.

use std::collections::HashSet;
use vstd::prelude::*;

verus! {

/// The snapshot that results from observing the values `observed`, one per slot.
pub open spec fn hazards_of(observed: Seq<usize>) -> Set<usize> {
    Set::new(|v: usize| v != 0 && observed.contains(v))
}

/// The entries of `buffer`, in order, whose address is in `snapshot`.
pub open spec fn retained<D>(buffer: Seq<(usize, D)>, snapshot: Set<usize>) -> Seq<(usize, D)>
    decreases buffer.len(),
{
    if buffer.len() == 0 {
        Seq::empty()
    } else if snapshot.contains(buffer.last().0) {
        retained(buffer.drop_last(), snapshot).push(buffer.last())
    } else {
        retained(buffer.drop_last(), snapshot)
    }
}

/// The entries of `buffer`, in order, whose address is not in `snapshot`.
pub open spec fn released<D>(buffer: Seq<(usize, D)>, snapshot: Set<usize>) -> Seq<(usize, D)>
    decreases buffer.len(),
{
    if buffer.len() == 0 {
        Seq::empty()
    } else if snapshot.contains(buffer.last().0) {
        released(buffer.drop_last(), snapshot)
    } else {
        released(buffer.drop_last(), snapshot).push(buffer.last())
    }
}

/// Observing one more value extends the snapshot by that value unless it is null.
pub proof fn lemma_hazards_of_push(observed: Seq<usize>, value: usize)
    ensures
        hazards_of(observed.push(value)) == if value != 0 {
            hazards_of(observed).insert(value)
        } else {
            hazards_of(observed)
        },
{
    let longer = observed.push(value);
    assert forall|v: usize| longer.contains(v) <==> (observed.contains(v) || v == value) by {
        if observed.contains(v) {
            let i = choose|i: int| 0 <= i < observed.len() && observed[i] == v;
            assert(longer[i] == v);
        }
        if v == value {
            assert(longer[observed.len() as int] == v);
        }
    }
    if value != 0 {
        assert(hazards_of(longer) =~= hazards_of(observed).insert(value));
    } else {
        assert(hazards_of(longer) =~= hazards_of(observed));
    }
}

/// A snapshot never holds the null value and is finite.
pub proof fn lemma_hazards_of_shape(observed: Seq<usize>)
    ensures
        !hazards_of(observed).contains(0),
        hazards_of(observed).finite(),
    decreases observed.len(),
{
    if observed.len() == 0 {
        assert(hazards_of(observed) =~= Set::<usize>::empty());
    } else {
        lemma_hazards_of_shape(observed.drop_last());
        lemma_hazards_of_push(observed.drop_last(), observed.last());
        assert(observed.drop_last().push(observed.last()) =~= observed);
    }
}

/// Records one observed slot value in the snapshot under construction: a null value
/// leaves the snapshot as it is, any other value is added.
pub fn note_hazard(hazards: &mut HashSet<usize>, observed: usize)
    ensures
        final(hazards)@ == if observed != 0 {
            old(hazards)@.insert(observed)
        } else {
            old(hazards)@
        },
{
    if observed != 0 {
        hazards.insert(observed);
    }
}

/// Every entry is either retained or released, and the order within each part is
/// the order of the buffer.
pub proof fn lemma_partition_len<D>(buffer: Seq<(usize, D)>, snapshot: Set<usize>)
    ensures
        retained(buffer, snapshot).len() + released(buffer, snapshot).len() == buffer.len(),
    decreases buffer.len(),
{
    if buffer.len() > 0 {
        lemma_partition_len(buffer.drop_last(), snapshot);
    }
}

/// A sequence with one more entry at its end holds what it held before, and that
/// entry.
pub proof fn lemma_push_contains<A>(front: Seq<A>, x: A, e: A)
    ensures
        front.push(x).contains(e) <==> (front.contains(e) || x == e),
{
    let longer = front.push(x);
    if front.contains(e) {
        let i = choose|i: int| 0 <= i < front.len() && front[i] == e;
        assert(longer[i] == e);
    }
    if x == e {
        assert(longer[front.len() as int] == e);
    }
    if longer.contains(e) {
        let i = choose|i: int| 0 <= i < longer.len() && longer[i] == e;
        if i < front.len() {
            assert(front[i] == e);
        }
    }
}

/// Exactly the entries with an address in the snapshot are retained.
pub proof fn lemma_retained_contains<D>(buffer: Seq<(usize, D)>, snapshot: Set<usize>, e: (usize, D))
    ensures
        retained(buffer, snapshot).contains(e) <==> (buffer.contains(e) && snapshot.contains(e.0)),
    decreases buffer.len(),
{
    let kept = retained(buffer, snapshot);
    if buffer.len() > 0 {
        let front = buffer.drop_last();
        let keep_front = retained(front, snapshot);
        lemma_retained_contains(front, snapshot, e);
        assert(front.push(buffer.last()) =~= buffer);
        lemma_push_contains(front, buffer.last(), e);
        if snapshot.contains(buffer.last().0) {
            assert(kept == keep_front.push(buffer.last()));
            lemma_push_contains(keep_front, buffer.last(), e);
        }
    }
}

/// Exactly the entries with an address outside the snapshot are released.
pub proof fn lemma_released_contains<D>(buffer: Seq<(usize, D)>, snapshot: Set<usize>, e: (usize, D))
    ensures
        released(buffer, snapshot).contains(e) <==> (buffer.contains(e) && !snapshot.contains(e.0)),
    decreases buffer.len(),
{
    let gone = released(buffer, snapshot);
    if buffer.len() > 0 {
        let front = buffer.drop_last();
        let gone_front = released(front, snapshot);
        lemma_released_contains(front, snapshot, e);
        assert(front.push(buffer.last()) =~= buffer);
        lemma_push_contains(front, buffer.last(), e);
        if !snapshot.contains(buffer.last().0) {
            assert(gone == gone_front.push(buffer.last()));
            lemma_push_contains(gone_front, buffer.last(), e);
        }
    }
}

/// What a scan saw published is not released: an entry whose address is among the
/// observed values, and not null, stays in the buffer when the buffer is collected
/// against the snapshot of those values.
pub proof fn lemma_observed_address_is_retained<D>(
    buffer: Seq<(usize, D)>,
    observed: Seq<usize>,
    e: (usize, D),
)
    requires
        buffer.contains(e),
        observed.contains(e.0),
        e.0 != 0,
    ensures
        retained(buffer, hazards_of(observed)).contains(e),
        !released(buffer, hazards_of(observed)).contains(e),
{
    lemma_retained_contains(buffer, hazards_of(observed), e);
    lemma_released_contains(buffer, hazards_of(observed), e);
}

/// Retaining twice is retaining once against the intersection of the snapshots.
pub proof fn lemma_retained_twice<D>(buffer: Seq<(usize, D)>, first: Set<usize>, second: Set<usize>)
    ensures
        retained(retained(buffer, first), second) == retained(buffer, first.intersect(second)),
    decreases buffer.len(),
{
    if buffer.len() > 0 {
        let front = buffer.drop_last();
        lemma_retained_twice(front, first, second);
        if first.contains(buffer.last().0) {
            let once = retained(buffer, first);
            assert(once.drop_last() =~= retained(front, first));
        }
    }
}

/// Retaining against a snapshot that holds every address keeps the whole buffer.
pub proof fn lemma_retained_all<D>(buffer: Seq<(usize, D)>, snapshot: Set<usize>)
    requires
        forall|i: int| 0 <= i < buffer.len() ==> snapshot.contains((#[trigger] buffer[i]).0),
    ensures
        retained(buffer, snapshot) == buffer,
        released(buffer, snapshot) == Seq::<(usize, D)>::empty(),
    decreases buffer.len(),
{
    if buffer.len() > 0 {
        let front = buffer.drop_last();
        assert forall|i: int| 0 <= i < front.len() implies snapshot.contains(
            (#[trigger] front[i]).0,
        ) by {
            assert(front[i] == buffer[i]);
        }
        lemma_retained_all(front, snapshot);
        assert(front.push(buffer.last()) =~= buffer);
    }
}

/// Retaining against a snapshot that holds none of the buffer's addresses releases
/// the whole buffer: nothing that no shield publishes outlives a collection.
pub proof fn lemma_unprotected_all_released<D>(buffer: Seq<(usize, D)>, snapshot: Set<usize>)
    requires
        forall|i: int| 0 <= i < buffer.len() ==> !snapshot.contains((#[trigger] buffer[i]).0),
    ensures
        retained(buffer, snapshot) == Seq::<(usize, D)>::empty(),
        released(buffer, snapshot) == buffer,
    decreases buffer.len(),
{
    if buffer.len() > 0 {
        let front = buffer.drop_last();
        assert forall|i: int| 0 <= i < front.len() implies !snapshot.contains(
            (#[trigger] front[i]).0,
        ) by {
            assert(front[i] == buffer[i]);
        }
        lemma_unprotected_all_released(front, snapshot);
        assert(front.push(buffer.last()) =~= buffer);
    }
}

/// One step of a collection: what is retained and what is released of a prefix one
/// entry longer.
pub proof fn lemma_partition_step<D>(buffer: Seq<(usize, D)>, snapshot: Set<usize>, i: int)
    requires
        0 <= i < buffer.len(),
    ensures
        retained(buffer.take(i + 1), snapshot) == if snapshot.contains(buffer[i].0) {
            retained(buffer.take(i), snapshot).push(buffer[i])
        } else {
            retained(buffer.take(i), snapshot)
        },
        released(buffer.take(i + 1), snapshot) == if snapshot.contains(buffer[i].0) {
            released(buffer.take(i), snapshot)
        } else {
            released(buffer.take(i), snapshot).push(buffer[i])
        },
{
    assert(buffer.take(i + 1).drop_last() =~= buffer.take(i));
    assert(buffer.take(i + 1).last() == buffer[i]);
}

} // verus!
