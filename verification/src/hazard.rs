//! The hazard registry and the reader's shield.
//!
//! A [`HazardBag`] is a grow-only table of slots. A slot is a liveness flag and one
//! published address. A reader leases a slot as a [`Shield`], publishes through it the
//! address it is about to use, and checks that the cell it read the address from
//! still holds it. Dropping the shield clears the slot and returns it to the pool.

use crate::layout::{
    add_capped, lemma_capacity, lemma_segment_fits, segment_at, segment_base, CAPACITY, SEGMENTS,
};
use crate::snapshot::{hazards_of, lemma_hazards_of_push, lemma_hazards_of_shape, note_hazard};
use crate::sync::{full_fence, store_flag, store_word};
use std::collections::HashSet;
use std::marker::PhantomData;
use std::rc::Rc;
use std::sync::atomic::{AtomicBool, AtomicUsize, Ordering};
use std::sync::OnceLock;
use vstd::prelude::*;

verus! {

/// Where a search for a free slot stands after one attempt.
#[derive(Debug, PartialEq, Eq)]
pub enum Search {
    /// The attempt took the lease: the search ends with the slot at `position`.
    Leased { position: usize },
    /// The attempt did not take the lease: the slot at `position` is tried next.
    Try { position: usize },
    /// The attempt did not take the lease and was on the last slot: the search
    /// ends without a slot.
    Exhausted,
}

/// Decides how a search goes on after its attempt on the slot at `position`, the
/// slots to search being those up to `last`. A search stops at the first lease it
/// takes, tries the slots in order, and gives up after the last.
pub fn after_attempt(position: usize, last: usize, won: bool) -> (next: Search)
    requires
        position <= last,
    ensures
        next == (if won {
            Search::Leased { position }
        } else if position < last {
            Search::Try { position: (position + 1) as usize }
        } else {
            Search::Exhausted
        }),
{
    if won {
        Search::Leased { position }
    } else if position < last {
        Search::Try { position: position + 1 }
    } else {
        Search::Exhausted
    }
}

/// The segment that a search goes on with after segment `segment` gave no slot,
/// when `installed` segments are installed: the next one, or none after the last.
pub fn after_segment(segment: usize, installed: usize) -> (next: Option<usize>)
    requires
        segment < installed,
    ensures
        next == (if segment + 1 < installed {
            Some((segment + 1) as usize)
        } else {
            None
        }),
{
    if segment + 1 < installed {
        Some(segment + 1)
    } else {
        None
    }
}

/// The segment to install when the `installed` segments of the table gave no slot:
/// the one after them, or none when the table has all its `SEGMENTS` segments.
pub fn segment_to_install(installed: usize) -> (next: Option<usize>)
    ensures
        next == (if installed < SEGMENTS {
            Some(installed)
        } else {
            None
        }),
{
    if installed < SEGMENTS {
        Some(installed)
    } else {
        None
    }
}

/// What the attempt to install a segment in a cell of the table leads to.
#[derive(Debug, PartialEq, Eq)]
pub enum Installed {
    /// The cell holds the segment of this call: its first slot, born leased, is
    /// handed out.
    First,
    /// The cell holds the segment of another thread: it is searched.
    Search,
    /// The cell gives no slot.
    Nothing,
}

/// Decides what the attempt to install a segment leads to: `ours` says whether the
/// store of this call went in, `present` whether the cell was then found to hold a
/// segment, and `len` how many slots that segment has.
pub fn after_install(ours: bool, present: bool, len: usize) -> (next: Installed)
    ensures
        next == (if !present {
            Installed::Nothing
        } else if !ours {
            Installed::Search
        } else if len > 0 {
            Installed::First
        } else {
            Installed::Nothing
        }),
{
    if !present {
        Installed::Nothing
    } else if !ours {
        Installed::Search
    } else if len > 0 {
        Installed::First
    } else {
        Installed::Nothing
    }
}

/// Where a protection stands after one validation.
#[derive(Debug, PartialEq, Eq)]
pub enum Retry {
    /// The validation succeeded: the protection ends with `value`.
    Protected { value: usize },
    /// The validation found the source changed: `value`, which it observed, is
    /// published and validated next, with `left` validations to go.
    Again { value: usize, left: usize },
    /// The validation found the source changed and was the last one allowed.
    GiveUp,
}

/// Decides how a protection goes on after the validation of `pointer`, when `left`
/// validations were still allowed, this one included. A success ends it with the
/// value just validated; a mismatch makes the value observed the next to protect,
/// unless no validation is left.
pub fn after_validation(pointer: usize, left: usize, outcome: Result<(), usize>) -> (next: Retry)
    requires
        left > 0,
    ensures
        next == (match outcome {
            Ok(()) => Retry::Protected { value: pointer },
            Err(seen) => if left > 1 {
                Retry::Again { value: seen, left: (left - 1) as usize }
            } else {
                Retry::GiveUp
            },
        }),
{
    match outcome {
        Ok(()) => Retry::Protected { value: pointer },
        Err(seen) => if left > 1 {
            Retry::Again { value: seen, left: left - 1 }
        } else {
            Retry::GiveUp
        },
    }
}

/// One record of the registry: whether it is leased, and the address it publishes.
#[derive(Debug)]
struct HazardSlot {
    /// `true` while a shield owns the slot.
    active: AtomicBool,
    /// The published address, `0` while nothing is published.
    hazard: AtomicUsize,
    /// Position of the slot in the table, fixed at creation.
    index: usize,
}

impl HazardSlot {
    #[verifier::type_invariant]
    spec fn inv(self) -> bool {
        self.index < CAPACITY
    }

    /// Position of the slot in the table.
    closed spec fn position(&self) -> nat {
        self.index as nat
    }

    /// A slot at position `index` that publishes nothing. It is born leased if
    /// `leased` is set, and free otherwise.
    fn new(index: usize, leased: bool) -> (slot: HazardSlot)
        requires
            index < CAPACITY,
        ensures
            slot.position() == index,
    {
        HazardSlot { active: AtomicBool::new(leased), hazard: AtomicUsize::new(0), index }
    }

    /// Tries to take the lease: flips the liveness flag from `false` to `true` in one
    /// compare-and-swap. `true` means the caller now owns the slot.
    fn try_lease(&self) -> (leased: bool) {
        !self.active.load(Ordering::Relaxed) && self.active.compare_exchange(
            false,
            true,
            Ordering::AcqRel,
            Ordering::Relaxed,
        ).is_ok()
    }

    /// Reads the published address.
    fn published(&self) -> (value: usize) {
        self.hazard.load(Ordering::SeqCst)
    }

    /// Reads the liveness flag.
    fn is_leased(&self) -> (leased: bool) {
        self.active.load(Ordering::Acquire)
    }
}

/// A segment of `len` fresh slots at positions `base`, `base + 1`, and so on. The
/// first slot is born leased, for the thread that installs the segment; the others
/// are free.
fn new_segment(base: usize, len: usize) -> (slots: Vec<HazardSlot>)
    requires
        base + len <= CAPACITY,
    ensures
        slots@.len() == len,
        forall|i: int| 0 <= i < len ==> (#[trigger] slots@[i]).position() == base + i,
{
    let mut slots: Vec<HazardSlot> = Vec::with_capacity(len);
    let mut i: usize = 0;
    while i < len
        invariant
            i <= len,
            base + len <= CAPACITY,
            slots@.len() == i,
            forall|j: int| 0 <= j < i ==> (#[trigger] slots@[j]).position() == base + j,
        decreases len - i,
    {
        slots.push(HazardSlot::new(base + i, i == 0));
        i = i + 1;
    }
    slots
}

/// Leases the first slot of `slots` that is found free, if any is. The slot handed
/// out is one of `slots`.
///
/// One attempt is made per slot, in order; `after_attempt` decides after each
/// whether the search ends with that slot, goes on, or ends without one.
fn lease_in<'a>(slots: &'a Vec<HazardSlot>) -> (leased: Option<&'a HazardSlot>)
    ensures
        leased matches Some(slot) ==> exists|i: int| 0 <= i < slots@.len() && slots@[i] == *slot,
        leased matches Some(slot) ==> slot.position() < CAPACITY,
{
    if slots.len() == 0 {
        return None;
    }
    let last: usize = slots.len() - 1;
    let mut at: usize = 0;
    loop
        invariant
            at <= last,
            last + 1 == slots@.len(),
        decreases last - at,
    {
        let won: bool = slots[at].try_lease();
        match after_attempt(at, last, won) {
            Search::Leased { position } => {
                let slot = &slots[position];
                proof {
                    use_type_invariant(slot);
                }
                return Some(slot);
            },
            Search::Try { position } => {
                at = position;
            },
            Search::Exhausted => {
                return None;
            },
        }
    }
}

/// The shared registry of hazard slots.
///
/// Slots live in segments that are installed on demand, one after the other, and
/// never removed, so a reference to a slot stays valid for as long as the registry
/// does. The table can hold `CAPACITY` slots.
#[derive(Debug)]
pub struct HazardBag {
    segments: Vec<OnceLock<Vec<HazardSlot>>>,
}

impl HazardBag {
    #[verifier::type_invariant]
    spec fn inv(self) -> bool {
        self.segments@.len() == SEGMENTS
    }

    /// Number of slots that the table of this registry can hold. Every registry has
    /// a table of `SEGMENTS` cells, so this is `CAPACITY` for each of them: it tells
    /// one registry from no other.
    pub closed spec fn capacity(&self) -> nat {
        segment_base(self.segments@.len())
    }

    /// Creates a registry without any slot. Its table has room for `CAPACITY` slots.
    pub fn new() -> (bag: HazardBag)
        ensures
            bag.capacity() == CAPACITY,
    {
        proof {
            lemma_capacity();
        }
        let mut segments: Vec<OnceLock<Vec<HazardSlot>>> = Vec::with_capacity(SEGMENTS);
        let mut k: usize = 0;
        while k < SEGMENTS
            invariant
                k <= SEGMENTS,
                segments@.len() == k,
            decreases SEGMENTS - k,
        {
            segments.push(OnceLock::new());
            k = k + 1;
        }
        HazardBag { segments }
    }

    /// Number of segments found installed: the cells of the table are read in order
    /// up to the first that is empty.
    fn installed_segments(&self) -> (installed: usize)
        ensures
            installed <= SEGMENTS,
    {
        proof {
            use_type_invariant(self);
        }
        let mut k: usize = 0;
        while k < self.segments.len()
            invariant
                self.segments@.len() == SEGMENTS,
                k <= SEGMENTS,
            decreases SEGMENTS - k,
        {
            if self.segments[k].get().is_none() {
                return k;
            }
            k = k + 1;
        }
        k
    }

    /// Scans the installed slots in table order and leases the first one found free.
    /// Installs nothing.
    ///
    /// Within a segment `lease_in` searches; `after_segment` decides after each
    /// segment that gave no slot whether the scan goes on or ends without one.
    fn try_acquire_inactive(&self) -> (leased: Option<&HazardSlot>)
        ensures
            leased matches Some(slot) ==> slot.position() < CAPACITY,
    {
        proof {
            use_type_invariant(self);
        }
        let installed: usize = self.installed_segments();
        if installed == 0 {
            return None;
        }
        let mut segment: usize = 0;
        loop
            invariant
                self.segments@.len() == SEGMENTS,
                segment < installed <= SEGMENTS,
            decreases installed - segment,
        {
            if let Some(slots) = self.segments[segment].get() {
                if let Some(slot) = lease_in(slots) {
                    return Some(slot);
                }
            }
            match after_segment(segment, installed) {
                Some(next) => {
                    segment = next;
                },
                None => {
                    return None;
                },
            }
        }
    }

    /// Installs a fresh segment in cell `k`, unless the cell is found to hold one,
    /// and leases a slot of the segment that the cell then holds. A fresh segment
    /// that came too late is dropped.
    ///
    /// `after_install` decides what is handed out: the first slot of the segment,
    /// which is born leased, if the segment is this call's; a slot that a search
    /// through the segment finds, if it is another thread's; nothing otherwise.
    fn install(&self, k: usize, base: usize, len: usize) -> (leased: Option<&HazardSlot>)
        requires
            k < SEGMENTS,
            base + len <= CAPACITY,
        ensures
            leased matches Some(slot) ==> slot.position() < CAPACITY,
    {
        proof {
            use_type_invariant(self);
        }
        let ours: bool = if self.segments[k].get().is_some() {
            false
        } else {
            self.segments[k].set(new_segment(base, len)).is_ok()
        };
        match self.segments[k].get() {
            Some(slots) => match after_install(ours, true, slots.len()) {
                Installed::First => {
                    let slot = &slots[0];
                    proof {
                        use_type_invariant(slot);
                    }
                    Some(slot)
                },
                Installed::Search => lease_in(slots),
                Installed::Nothing => None,
            },
            None => match after_install(ours, false, 0) {
                Installed::First => None,
                Installed::Search => None,
                Installed::Nothing => None,
            },
        }
    }

    /// Leases a slot: a free one if the scan finds one, else the first of a segment
    /// that this call installs, or one of a segment that another thread installs in
    /// its place. `None` only when the table has all its segments and the search
    /// through them gave no slot.
    ///
    /// `segment_to_install` decides after each search in vain whether the table
    /// grows by one segment or the call ends without a slot. The call never waits
    /// for a slot to become free. Installing a segment is one store into a
    /// write-once cell, and that store may wait while another thread completes its
    /// own store into the same cell.
    fn acquire_slot(&self) -> (leased: Option<&HazardSlot>)
        ensures
            leased matches Some(slot) ==> slot.position() < CAPACITY,
    {
        if let Some(slot) = self.try_acquire_inactive() {
            return Some(slot);
        }
        let mut installed: usize = self.installed_segments();
        loop
            invariant
                installed <= SEGMENTS,
            decreases SEGMENTS - installed,
        {
            match segment_to_install(installed) {
                Some(k) => {
                    proof {
                        lemma_segment_fits(k as nat);
                    }
                    let segment = segment_at(k);
                    if let Some(slot) = self.install(k, segment.0, segment.1) {
                        return Some(slot);
                    }
                    installed = k + 1;
                },
                None => {
                    return None;
                },
            }
        }
    }

    /// Takes a snapshot of the published addresses.
    ///
    /// Reads the published value of every installed slot once, between two full
    /// fences, and returns the set of the values seen, without the null value. The
    /// snapshot is an approximation of a state that other threads keep changing: an
    /// address in it may have been cleared since, and an address missing from it was
    /// not published in its slot at the moment that slot was read.
    pub fn all_hazards(&self) -> (hazards: HashSet<usize>)
        ensures
            !hazards@.contains(0),
            hazards@.finite(),
    {
        let mut hazards: HashSet<usize> = HashSet::new();
        let ghost mut seen: Seq<usize> = Seq::empty();
        assert(hazards@ =~= hazards_of(seen));
        full_fence();
        let mut k: usize = 0;
        while k < self.segments.len()
            invariant
                k <= self.segments@.len(),
                hazards@ == hazards_of(seen),
            decreases self.segments@.len() - k,
        {
            if let Some(slots) = self.segments[k].get() {
                let mut i: usize = 0;
                while i < slots.len()
                    invariant
                        i <= slots@.len(),
                        hazards@ == hazards_of(seen),
                    decreases slots@.len() - i,
                {
                    let value: usize = slots[i].published();
                    note_hazard(&mut hazards, value);
                    proof {
                        lemma_hazards_of_push(seen, value);
                        seen = seen.push(value);
                    }
                    i = i + 1;
                }
            }
            k = k + 1;
        }
        full_fence();
        proof {
            lemma_hazards_of_shape(seen);
        }
        hazards
    }

    /// Number of slots in the segments found installed, `CAPACITY` at most. The
    /// lengths are added up with `add_capped`.
    pub fn slot_count(&self) -> (count: usize)
        ensures
            count <= CAPACITY,
    {
        let mut count: usize = 0;
        let mut k: usize = 0;
        while k < self.segments.len()
            invariant
                k <= self.segments@.len(),
                count <= CAPACITY,
            decreases self.segments@.len() - k,
        {
            if let Some(slots) = self.segments[k].get() {
                count = add_capped(count, slots.len());
            }
            k = k + 1;
        }
        count
    }

    /// Number of slots that are leased at the moment each is read, `CAPACITY` at
    /// most.
    pub fn leased_count(&self) -> (count: usize)
        ensures
            count <= CAPACITY,
    {
        let mut count: usize = 0;
        let mut k: usize = 0;
        while k < self.segments.len()
            invariant
                k <= self.segments@.len(),
                count <= CAPACITY,
            decreases self.segments@.len() - k,
        {
            if let Some(slots) = self.segments[k].get() {
                let mut i: usize = 0;
                while i < slots.len()
                    invariant
                        i <= slots@.len(),
                        count <= CAPACITY,
                    decreases slots@.len() - i,
                {
                    if slots[i].is_leased() {
                        count = add_capped(count, 1);
                    }
                    i = i + 1;
                }
            }
            k = k + 1;
        }
        count
    }
}

impl Default for HazardBag {
    /// A registry without any slot, as `new` creates it.
    fn default() -> (bag: HazardBag)
        ensures
            bag.capacity() == CAPACITY,
    {
        HazardBag::new()
    }
}

/// The outcome of checking a published `value` against the value `observed` in the
/// cell it was read from: success if they agree, the observed value otherwise.
pub open spec fn validation(value: usize, observed: usize) -> Result<(), usize> {
    if observed == value {
        Ok(())
    } else {
        Err(observed)
    }
}

/// A reader's lease of one slot.
///
/// The lease is taken by compare-and-swap on the slot's liveness flag and given
/// back when the shield is dropped. What the protocol gains from it, that no
/// collection releases an object while a shield publishes its validated address, is
/// proved of the model in `protocol`; no contract here speaks of what a slot holds.
/// A shield stays on the thread that created it.
pub struct Shield<'a> {
    slot: &'a HazardSlot,
    /// Keeps the shield from being sent to or shared with another thread.
    _marker: PhantomData<Rc<()>>,
}

impl<'a> Shield<'a> {
    /// Position of the leased slot in the registry's table.
    pub closed spec fn position(&self) -> nat {
        self.slot.position()
    }

    /// Leases a slot of `hazards`. `None` if the table is full: it has all its
    /// segments, and the search through them found every slot leased.
    pub fn new(hazards: &'a HazardBag) -> (shield: Option<Shield<'a>>)
        ensures
            shield matches Some(s) ==> s.position() < CAPACITY,
    {
        match hazards.acquire_slot() {
            Some(slot) => Some(Shield { slot, _marker: PhantomData }),
            None => None,
        }
    }

    /// Position of the leased slot in the registry's table.
    pub fn slot_index(&self) -> (index: usize)
        ensures
            index == self.position(),
            index < CAPACITY,
    {
        proof {
            use_type_invariant(self.slot);
        }
        self.slot.index
    }

    /// Publishes `value` in the leased slot, replacing what was published.
    pub fn set(&self, value: usize) {
        store_word(&self.slot.hazard, value);
    }

    /// Publishes the null value: the shield protects nothing.
    pub fn clear(&self) {
        self.set(0);
    }

    /// Decides a validation from the value `observed` in the source.
    pub fn check(value: usize, observed: usize) -> (outcome: Result<(), usize>)
        ensures
            outcome == validation(value, observed),
    {
        if observed == value {
            Ok(())
        } else {
            Err(observed)
        }
    }

    /// Reads `src` again and checks that it still holds `value`. On a mismatch the
    /// value just read is returned in `Err`; it differs from `value`. Changes
    /// nothing.
    pub fn validate(value: usize, src: &AtomicUsize) -> (outcome: Result<(), usize>)
        ensures
            exists|observed: usize| outcome == validation(value, observed),
            outcome matches Err(seen) ==> seen != value,
    {
        let observed: usize = src.load(Ordering::SeqCst);
        Self::check(value, observed)
    }

    /// Publishes `value` and validates it against `src`. On a mismatch the slot is
    /// cleared before the mismatch is reported.
    pub fn try_protect(&self, value: usize, src: &AtomicUsize) -> (outcome: Result<(), usize>)
        ensures
            exists|observed: usize| outcome == validation(value, observed),
            outcome matches Err(seen) ==> seen != value,
    {
        self.set(value);
        let outcome = Self::validate(value, src);
        if outcome.is_err() {
            self.clear();
        }
        outcome
    }

    /// Reads the value of `src` and tries to protect it, for at most `attempts`
    /// validations. With no attempt allowed the result is `None`.
    ///
    /// Each round publishes and validates one value with `try_protect`, and
    /// `after_validation` decides from the outcome how the call goes on: it ends with
    /// the value just validated, goes on with the value that the validation
    /// observed, or ends with `None` after the last round.
    pub fn protect(&self, src: &AtomicUsize, attempts: usize) -> (protected: Option<usize>)
        ensures
            attempts == 0 ==> protected is None,
    {
        let mut pointer: usize = src.load(Ordering::SeqCst);
        if attempts == 0 {
            return None;
        }
        let mut left: usize = attempts;
        loop
            invariant
                0 < left <= attempts,
            decreases left,
        {
            let outcome = self.try_protect(pointer, src);
            match after_validation(pointer, left, outcome) {
                Retry::Protected { value } => {
                    return Some(value);
                },
                Retry::Again { value, left: rest } => {
                    pointer = value;
                    left = rest;
                },
                Retry::GiveUp => {
                    return None;
                },
            }
        }
    }
}

impl<'a> Drop for Shield<'a> {
    /// Clears the published value and gives the slot back to the pool.
    fn drop(&mut self)
        opens_invariants none
        no_unwind
    {
        store_word(&self.slot.hazard, 0);
        store_flag(&self.slot.active, false);
    }
}

} // verus!
