//! Contracts for the pieces of `std::sync` that the registry is built from.
//!
//! Nothing here says what a shared cell holds: another thread may change it between
//! any two calls. Each contract states only what the documentation of the std item
//! promises of the values handed in and out.

use std::sync::atomic::{fence, AtomicBool, AtomicUsize, Ordering};
use std::sync::OnceLock;
use vstd::prelude::*;

verus! {

/// `std::sync::OnceLock`, a cell that is written at most once. Its contents are
/// opaque to the verifier.
#[verifier::external_type_specification]
#[verifier::external_body]
#[verifier::reject_recursive_types(T)]
pub struct ExOnceLock<T>(OnceLock<T>);

/// `OnceLock::new` creates an empty cell. Nothing is stated of it.
pub assume_specification<T>[ OnceLock::<T>::new ]() -> (cell: OnceLock<T>);

/// `OnceLock::get` returns the stored value if some thread has stored one. Whether
/// one has is not known to the caller, so nothing is stated of the result.
pub assume_specification<T>[ OnceLock::<T>::get ](cell: &OnceLock<T>) -> (stored: Option<&T>);

/// `OnceLock::set` stores `value` if the cell was empty and otherwise hands the very
/// same `value` back in `Err`. Which of the two happens depends on other threads,
/// and the call may wait while another thread completes its own store.
pub assume_specification<T>[ OnceLock::<T>::set ](cell: &OnceLock<T>, value: T) -> (outcome:
    Result<(), T>)
    ensures
        outcome matches Err(back) ==> back == value,
;

/// `AtomicUsize::store` with sequentially consistent ordering. The store neither
/// panics nor unwinds, which is what lets a destructor call it.
#[verifier::external_body]
pub(crate) fn store_word(cell: &AtomicUsize, value: usize)
    opens_invariants none
    no_unwind
{
    cell.store(value, Ordering::SeqCst);
}

/// `AtomicBool::store` with release ordering. The store neither panics nor unwinds,
/// which is what lets a destructor call it.
#[verifier::external_body]
pub(crate) fn store_flag(cell: &AtomicBool, value: bool)
    opens_invariants none
    no_unwind
{
    cell.store(value, Ordering::Release);
}

/// `std::sync::atomic::fence` with sequentially consistent ordering, the one
/// ordering with which it is a full barrier. It returns nothing.
#[verifier::external_body]
pub(crate) fn full_fence() {
    fence(Ordering::SeqCst);
}

/// `std::mem::take` on a vector: hands out the vector and leaves an empty one in its
/// place. Creating the empty vector allocates nothing, so the call cannot unwind.
#[verifier::external_body]
pub(crate) fn take_all<T>(items: &mut Vec<T>) -> (taken: Vec<T>)
    ensures
        taken@ == old(items)@,
        final(items)@ == Seq::<T>::empty(),
    opens_invariants none
    no_unwind
{
    std::mem::take(items)
}

/// `std::mem::forget` on a vector: gives up the vector without running the
/// destructor of any element. It returns nothing and cannot unwind.
#[verifier::external_body]
pub(crate) fn forget_all<T>(items: Vec<T>)
    opens_invariants none
    no_unwind
{
    std::mem::forget(items);
}

} // verus!
