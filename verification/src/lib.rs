//! Hazard-pointer safe memory reclamation.
//!
//! Readers lease a [`Shield`] from a shared [`HazardBag`] and publish through it the
//! address they are about to dereference. Writers hand unlinked objects to their own
//! [`RetiredSet`], which releases an object only once a scan of the registry no longer
//! finds its address published.
//!
//! Addresses are plain `usize` values and `0` stands for "nothing published". The
//! slots are coordinated through atomics alone. The table that holds them grows by
//! segments, each installed by one store into a write-once cell of `std`; that
//! store may wait while another thread completes its own store into the same
//! cell, so growing the table is not lock-free, while leasing, publishing,
//! scanning and releasing are.
//!
//! What another thread may have stored is never assumed: contracts of functions
//! that read shared cells state what holds for every value that could have been
//! observed, and the decisions taken on an observed value are separate functions
//! with exact contracts.
//!
//! - [`hazard`]: the registry and the shield.
//! - [`retire`]: the retirement queue.
//! - [`snapshot`]: what a scan yields and what a collection keeps, as spec functions.
//! - [`layout`]: the geometry of the registry's slot table.
//! - [`protocol`]: the protocol as a transition system over interleaved atomic
//!   steps, with the proofs that no protected object is released, that a snapshot
//!   covers what stayed published, and that an idle registry recycles its slots.
//! - [`sync`]: the contracts assumed of `std::sync`.

pub mod hazard;
pub mod layout;
pub mod protocol;
pub mod retire;
pub mod snapshot;
pub mod sync;

pub use hazard::{HazardBag, Shield};
pub use retire::RetiredSet;
