use vstd::prelude::*;

verus! {

/// The failure kinds an invocation can surface. Every error aborts the whole
/// invocation: a failed call never leaves a partial write behind.
#[derive(Clone, Copy, Debug, PartialEq, Eq, Structural)]
pub enum ErrorKind {
    /// The caller's signature does not authenticate the claimed owner, or the
    /// supplied address is not the one derived for that owner.
    AuthorizationError,
    /// The color, the hobby count, or one hobby entry exceeds its declared
    /// maximum.
    CapacityExceededError,
    /// The payer cannot fund a first-time creation, or an existing account's
    /// size disagrees with the expected fixed size.
    AllocationError,
    /// Stored bytes do not decode as a favorites record.
    EncodingError,
}

} // verus!
