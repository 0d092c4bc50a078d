//! Identifiers of the subset rules.
use vstd::prelude::*;

pub use crate::rules::RuleId::{
    PB001, PB002, PB004, PB005, PB006, PB007, PB008, PB009,
    PB010, PB011, PB012, PB013, PB015, PB018, PB019, PB020,
    PB021, PB022, PB023, PB024, PB025, PB026, PB027, PB028,
    PB030, PB031, PB032, PB033, PB039, PB043, PB045, PB046,
    PB048, PB050, PB051, PB054, PB056,
};

verus! {

/// A rule of the subset.
#[derive(Clone, Copy, Debug, PartialEq, Eq, Structural)]
pub enum RuleId {
    /// Use of an `unsafe` construct.
    PB001,
    /// Definition of an `unsafe fn`.
    PB002,
    /// Raw pointers.
    PB004,
    /// Unions.
    PB005,
    /// Inline assembly.
    PB006,
    /// `transmute`.
    PB007,
    /// `MaybeUninit`.
    PB008,
    /// Retags.
    PB009,
    /// De-initialisation outside drop elaboration.
    PB010,
    /// `Box` and the allocator interface.
    PB011,
    /// Allocating collections.
    PB012,
    /// Shallow box initialisation.
    PB013,
    /// Reference counting.
    PB015,
    /// `static mut`.
    PB018,
    /// Thread-local references.
    PB019,
    /// Oversized stack locals.
    PB020,
    /// The cell family.
    PB021,
    /// `UnsafeCell`.
    PB022,
    /// Atomics.
    PB023,
    /// Synchronisation primitives.
    PB024,
    /// Volatile accesses.
    PB025,
    /// `async fn`.
    PB026,
    /// Coroutines.
    PB027,
    /// Thread creation.
    PB028,
    /// Channels.
    PB030,
    /// Trait objects.
    PB031,
    /// Function pointers.
    PB032,
    /// Closures.
    PB033,
    /// Types that cannot be resolved.
    PB039,
    /// Reachable panics.
    PB043,
    /// Tail calls.
    PB045,
    /// Control flow that only the borrow checker may see.
    PB046,
    /// Unwinding.
    PB048,
    /// Floating point.
    PB050,
    /// Integer casts.
    PB051,
    /// Indexing, and overlong place projections.
    PB054,
    /// Foreign items.
    PB056,
}

} // verus!
