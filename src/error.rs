//! Failures reported to callers.

use vstd::prelude::*;

verus! {

/// Why a memory-management request failed. Broken kernel invariants (a
/// double map, unmapping an unmapped page, releasing a frame that is not
/// live, growing a table that owns no frame through `map`) are not errors:
/// the operations' preconditions rule them out.
#[derive(Clone, Copy, Debug, PartialEq, Eq, Structural)]
pub enum MmError {
    /// No frame is left to allocate.
    FramesExhausted,
    /// The mapping lacks the permission the access needs.
    PermissionDenied,
    /// No valid translation exists for the address.
    TranslationMiss,
    /// The address is not suitably aligned.
    MisalignedAddress,
    /// The table owns no frame and cannot grow.
    NoOwnedFrames,
}

} // verus!
