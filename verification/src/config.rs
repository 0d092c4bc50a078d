//! Settings of a verification run.
use vstd::prelude::*;

verus! {

/// Limits that the subset rules depend on.
#[derive(Clone, Copy, Debug, PartialEq, Eq, Structural)]
pub struct SubsetLimits {
    /// The largest size in bytes that a local may have.
    pub stack_allocation_limit_bytes: u64,
    /// The width of a pointer on the target, in bits.
    pub target_pointer_width: u16,
}

/// How calls that cannot be proved harmless are treated.
#[derive(Clone, Copy, Debug, PartialEq, Eq, Structural)]
pub struct VerificationPolicy {
    /// Reject each call that may panic, in place of an obligation for it.
    pub strict_panic_acceptance: bool,
    /// Report each call into the standard library that is not known to be total.
    pub strict_library_acceptance: bool,
}

#[derive(Clone, Copy, Debug, PartialEq, Eq, Structural)]
pub struct SubsetConfig {
    pub subset: SubsetLimits,
    pub verification: VerificationPolicy,
}

impl SubsetConfig {
    /// Settings for tests: a 64-bit target, a limit of one mebibyte per local, panics as
    /// obligations, and unknown library calls reported.
    pub fn default_for_test() -> (r: SubsetConfig)
        ensures
            r.subset.stack_allocation_limit_bytes == 1_048_576,
            r.subset.target_pointer_width == 64,
            !r.verification.strict_panic_acceptance,
            r.verification.strict_library_acceptance,
    {
        SubsetConfig {
            subset: SubsetLimits {
                stack_allocation_limit_bytes: 1_048_576,
                target_pointer_width: 64,
            },
            verification: VerificationPolicy {
                strict_panic_acceptance: false,
                strict_library_acceptance: true,
            },
        }
    }
}

} // verus!
