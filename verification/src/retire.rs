//! The writer's retirement queue.
//!
//! A [`RetiredSet`] buffers objects that were unlinked from a shared structure but
//! may still be in use by readers. Each entry pairs the address that readers publish
//! with a payload that owns the object; dropping the payload destroys the object. A
//! collection takes a snapshot of the registry and drops the payload of every entry
//! whose address is not in it.

use crate::hazard::HazardBag;
use crate::snapshot::{
    lemma_partition_step, lemma_retained_all, lemma_retained_twice, released, retained,
};
use crate::sync::{forget_all, take_all};
use std::collections::HashSet;
use std::marker::PhantomData;
use std::rc::Rc;
use vstd::prelude::*;

verus! {

/// Number of buffered entries at which `retire` triggers a collection.
pub const THRESHOLD: usize = 64;

/// A thread's buffer of retired objects, validated against one registry.
///
/// A queue is made of the registry it validates against, which never changes, and
/// of its entries, oldest first, which are its view. A queue stays on the thread
/// that created it.
#[derive(Debug)]
pub struct RetiredSet<'s, D> {
    hazards: &'s HazardBag,
    inner: Vec<(usize, D)>,
    /// Keeps the queue from being sent to or shared with another thread.
    _marker: PhantomData<Rc<()>>,
}

impl<'s, D> RetiredSet<'s, D> {
    /// The buffered entries, oldest first.
    pub closed spec fn view(&self) -> Seq<(usize, D)> {
        self.inner@
    }

    /// The registry that the queue validates against: the one whose snapshot a
    /// collection takes.
    pub closed spec fn registry(&self) -> &HazardBag {
        self.hazards
    }

    /// Creates an empty queue that validates against `hazards`.
    pub fn new(hazards: &'s HazardBag) -> (queue: RetiredSet<'s, D>)
        ensures
            queue@ == Seq::<(usize, D)>::empty(),
            queue.registry() == hazards,
    {
        RetiredSet { hazards, inner: Vec::new(), _marker: PhantomData }
    }

    /// Number of buffered entries.
    pub fn len(&self) -> (n: usize)
        ensures
            n == self@.len(),
    {
        self.inner.len()
    }

    /// Whether nothing is buffered.
    pub fn is_empty(&self) -> (empty: bool)
        ensures
            empty == (self@.len() == 0),
    {
        self.inner.len() == 0
    }

    /// Retires the object at address `pointer`, owned by `payload`.
    ///
    /// The caller has unlinked the object from every shared structure and retires it
    /// only once. The entry is appended to the buffer. If the buffer then holds
    /// `THRESHOLD` entries or more, a collection runs before the call returns.
    pub fn retire(&mut self, pointer: usize, payload: D)
        ensures
            old(self)@.len() + 1 < THRESHOLD ==> final(self)@ == old(self)@.push((pointer, payload)),
            old(self)@.len() + 1 >= THRESHOLD ==> exists|snapshot: Set<usize>|
                !snapshot.contains(0) && snapshot.finite() && final(self)@ == #[trigger] retained(
                    old(self)@.push((pointer, payload)),
                    snapshot,
                ),
            final(self).registry() == old(self).registry(),
    {
        self.inner.push((pointer, payload));
        if self.inner.len() >= THRESHOLD {
            self.collect();
        }
    }

    /// Takes a snapshot of the registry and releases every entry whose address is
    /// not in it. The entries that stay keep their order.
    ///
    /// Which values the scan observes depends on the other threads; the buffer
    /// afterwards is the old buffer retained against the snapshot, a finite set of
    /// addresses without the null address.
    pub fn collect(&mut self)
        ensures
            exists|snapshot: Set<usize>|
                !snapshot.contains(0) && snapshot.finite() && final(self)@ == #[trigger] retained(
                    old(self)@,
                    snapshot,
                ),
            final(self).registry() == old(self).registry(),
    {
        let snapshot = self.hazards.all_hazards();
        self.collect_against(&snapshot);
        assert(!snapshot@.contains(0) && snapshot@.finite() && self@ == retained(
            old(self)@,
            snapshot@,
        ));
    }

    /// Takes out of the buffer every entry whose address is not in `snapshot` and
    /// hands these entries over, oldest first. The others stay, in their order.
    pub fn take_unprotected(&mut self, snapshot: &HashSet<usize>) -> (freed: Vec<(usize, D)>)
        ensures
            final(self)@ == retained(old(self)@, snapshot@),
            freed@ == released(old(self)@, snapshot@),
            final(self).registry() == old(self).registry(),
    {
        let ghost before = self.inner@;
        let mut pending: Vec<(usize, D)> = Vec::new();
        core::mem::swap(&mut self.inner, &mut pending);
        let mut kept: Vec<(usize, D)> = Vec::new();
        let mut freed: Vec<(usize, D)> = Vec::new();
        assert(before.take(0) =~= Seq::<(usize, D)>::empty());
        for entry in it: pending
            invariant
                it.seq() == before,
                kept@ == retained(before.take(it.index() as int), snapshot@),
                freed@ == released(before.take(it.index() as int), snapshot@),
        {
            proof {
                lemma_partition_step(before, snapshot@, it.index() as int);
            }
            if snapshot.contains(&entry.0) {
                kept.push(entry);
            } else {
                freed.push(entry);
            }
        }
        assert(before.take(before.len() as int) =~= before);
        self.inner = kept;
        freed
    }

    /// Releases every entry whose address is not in `snapshot` and keeps the others
    /// in their order. The released entries are those that `take_unprotected` hands
    /// over; their payloads are dropped, oldest first, once the buffer holds exactly
    /// the entries that stay.
    pub fn collect_against(&mut self, snapshot: &HashSet<usize>)
        ensures
            final(self)@ == retained(old(self)@, snapshot@),
            final(self).registry() == old(self).registry(),
    {
        let _ = self.take_unprotected(snapshot);
    }

    /// Collects up to `rounds` times, stopping as soon as the buffer is empty.
    /// Returns whether the buffer is empty at the end.
    ///
    /// What stays was found published in every round: the result is the old buffer
    /// retained against the intersection of the snapshots taken.
    pub fn drain(&mut self, rounds: usize) -> (emptied: bool)
        ensures
            emptied == (final(self)@.len() == 0),
            exists|snapshot: Set<usize>| final(self)@ == #[trigger] retained(old(self)@, snapshot),
            (rounds == 0 || old(self)@.len() == 0) ==> final(self)@ == old(self)@,
            final(self).registry() == old(self).registry(),
    {
        let ghost mut met: Set<usize> = Set::full();
        proof {
            lemma_retained_all(self@, met);
        }
        let mut left: usize = rounds;
        while left > 0 && !self.is_empty()
            invariant
                self@ == retained(old(self)@, met),
                self.registry() == old(self).registry(),
                left <= rounds,
                left == rounds ==> self@ == old(self)@,
                old(self)@.len() == 0 ==> self@ == old(self)@,
            decreases left,
        {
            let ghost round_start = self@;
            self.collect();
            proof {
                let snapshot = choose|snapshot: Set<usize>|
                    !snapshot.contains(0) && snapshot.finite() && self@ == #[trigger] retained(
                        round_start,
                        snapshot,
                    );
                lemma_retained_twice(old(self)@, met, snapshot);
                met = met.intersect(snapshot);
            }
            left = left - 1;
        }
        self.is_empty()
    }
}

impl<'s, D> Drop for RetiredSet<'s, D> {
    /// Gives up the entries that are still buffered without dropping their payloads:
    /// an object that a reader may still use is never destroyed. Call `drain` until
    /// it returns `true` to release them instead.
    fn drop(&mut self)
        opens_invariants none
        no_unwind
    {
        let rest = take_all(&mut self.inner);
        forget_all(rest);
    }
}

} // verus!
