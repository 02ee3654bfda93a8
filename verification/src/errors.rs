//! Error kinds of the proof system.

use vstd::prelude::*;

verus! {

/// Why a proof was rejected.
#[derive(Clone, Copy, Debug, PartialEq, Eq, Structural)]
pub enum VerificationError {
    /// A transcript mismatch: a Merkle path, a fold, or a committed hash
    /// failed to check.
    InvalidProof,
    /// The seal is shorter than required or was not fully consumed.
    MalformedProof,
    /// The announced method id does not cover the announced trace size.
    MethodIdMismatch,
}

/// Why guest execution was aborted.
#[derive(Clone, Copy, Debug, PartialEq, Eq, Structural)]
pub enum ExecError {
    /// The guest performed a forbidden memory operation or raised a fault:
    /// an unaligned access, a read of unmapped memory, a write-once
    /// conflict, or an explicit fault request.
    GuestFault,
    /// A host-side I/O callback failed, or host input overran its region.
    HostIO,
    /// The request needs a collaborator that is not wired in.
    Unsupported,
    /// A prover bug: the constraint system handed over malformed data.
    Internal,
}

} // verus!
