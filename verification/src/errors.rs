//! Failure classification.
//!
//! Absence and denied permission are recoverable: they drop one entry
//! from a result set or turn one lookup into "nothing".  Anything else
//! is fatal to the whole query.

use vstd::prelude::*;

verus! {

/// How one traversal or status read failed.
#[derive(Debug, Clone, Copy, PartialEq, Eq, Structural)]
pub enum IoFault {
    NotFound,
    PermissionDenied,
    /// Any other I/O failure.
    Other,
}

impl vstd::view::DeepView for IoFault {
    type V = IoFault;

    open spec fn deep_view(&self) -> IoFault {
        *self
    }
}

/// Why a whole collection query aborted.
#[derive(Debug, Clone, Copy, PartialEq, Eq, Structural)]
pub enum CollectError {
    /// The match expression was malformed.
    InvalidPattern,
    /// An entry of the expansion or walk failed with a fault that is
    /// neither absence nor denied permission.
    TraversalIo,
    /// A status read in the sequential phase failed with such a fault.
    StatIo,
}

/// A fault that only drops the affected entry.
pub open spec fn is_recoverable(f: IoFault) -> bool {
    f == IoFault::NotFound || f == IoFault::PermissionDenied
}

/// Runtime check for [`is_recoverable`].
pub fn is_recoverable_fault(f: &IoFault) -> (r: bool)
    ensures
        r == is_recoverable(*f),
{
    match f {
        IoFault::NotFound => true,
        IoFault::PermissionDenied => true,
        IoFault::Other => false,
    }
}

} // verus!
