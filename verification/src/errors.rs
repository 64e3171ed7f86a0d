//! The kinds of failure a transfer meets, and what becomes of each: recovered where it
//! happened, or surfaced to the host.

use vstd::prelude::*;
use crate::crypto::DecryptError;
use crate::download::VerifyError;
use crate::progress::{STATE_CANCELLED, STATE_ERROR};
use crate::receiver::WriteError;
use crate::sender::SendRetry;

verus! {

/// What kind of thing went wrong.
#[derive(Debug, Clone, Copy, PartialEq, Eq, Structural)]
pub enum ErrorKind {
    /// A socket would block, or had no buffer space, or reported a reset on receive.
    TransientNetwork,
    /// A malformed frame, a frame of an unknown transfer, a frame too short.
    Protocol,
    /// A tag, a chunk hash or the file hash does not match.
    Integrity,
    /// A file cannot be opened, created or allocated; memory is exhausted.
    Resource,
    /// The host called the transfer off.
    Cancellation,
    /// The sender's time for answering ran out before every chunk was acknowledged.
    Timeout,
    /// The bearer is invalid or expired.
    Auth,
}

/// What is done about a failure.
#[derive(Debug, Clone, Copy, PartialEq, Eq, Structural)]
pub enum Propagation {
    /// Handled where it happened; the host never sees it.
    RecoverLocally,
    /// Reported to the host at once; the pipeline stops and the transfer is failed.
    SurfaceAndStop,
    /// Every thread stops; the transfer is cancelled, and nothing is reported as an error.
    StopQuietly,
    /// Reported as a warning; the transfer counts as done and the caller may offer again.
    Warn,
}

/// What is done about a failure of each kind.
pub open spec fn spec_propagation(kind: ErrorKind) -> Propagation {
    match kind {
        ErrorKind::TransientNetwork => Propagation::RecoverLocally,
        ErrorKind::Protocol => Propagation::RecoverLocally,
        ErrorKind::Integrity => Propagation::SurfaceAndStop,
        ErrorKind::Resource => Propagation::SurfaceAndStop,
        ErrorKind::Auth => Propagation::SurfaceAndStop,
        ErrorKind::Cancellation => Propagation::StopQuietly,
        ErrorKind::Timeout => Propagation::Warn,
    }
}

/// What is done about a failure of kind `kind`.
pub fn propagation(kind: ErrorKind) -> (p: Propagation)
    ensures
        p == spec_propagation(kind),
{
    match kind {
        ErrorKind::TransientNetwork => Propagation::RecoverLocally,
        ErrorKind::Protocol => Propagation::RecoverLocally,
        ErrorKind::Integrity => Propagation::SurfaceAndStop,
        ErrorKind::Resource => Propagation::SurfaceAndStop,
        ErrorKind::Auth => Propagation::SurfaceAndStop,
        ErrorKind::Cancellation => Propagation::StopQuietly,
        ErrorKind::Timeout => Propagation::Warn,
    }
}

/// The state a host reads after a failure of kind `kind`, given the state before it, and
/// whether the failure's text goes into the transfer's error slot.
pub fn state_after(kind: ErrorKind, state: u8) -> (r: (u8, bool))
    ensures
        r == match spec_propagation(kind) {
            Propagation::SurfaceAndStop => (STATE_ERROR, true),
            Propagation::StopQuietly => (STATE_CANCELLED, false),
            Propagation::RecoverLocally => (state, false),
            Propagation::Warn => (state, false),
        },
{
    match propagation(kind) {
        Propagation::SurfaceAndStop => (STATE_ERROR, true),
        Propagation::StopQuietly => (STATE_CANCELLED, false),
        Propagation::RecoverLocally => (state, false),
        Propagation::Warn => (state, false),
    }
}

/// A packet or chunk that does not open: too short is a matter of protocol, a wrong nonce
/// or tag a matter of integrity.
pub fn kind_of_decrypt_error(e: DecryptError) -> (kind: ErrorKind)
    ensures
        kind == match e {
            DecryptError::TooShort => ErrorKind::Protocol,
            DecryptError::IvMismatch => ErrorKind::Integrity,
            DecryptError::AuthFailed => ErrorKind::Integrity,
        },
{
    match e {
        DecryptError::TooShort => ErrorKind::Protocol,
        DecryptError::IvMismatch => ErrorKind::Integrity,
        DecryptError::AuthFailed => ErrorKind::Integrity,
    }
}

/// A chunk that is not written: a hash that does not match is a matter of integrity, a
/// place that cannot be named one of resources.
pub fn kind_of_write_error(e: WriteError) -> (kind: ErrorKind)
    ensures
        kind == match e {
            WriteError::HashMismatch => ErrorKind::Integrity,
            WriteError::OffsetOverflow => ErrorKind::Resource,
        },
{
    match e {
        WriteError::HashMismatch => ErrorKind::Integrity,
        WriteError::OffsetOverflow => ErrorKind::Resource,
    }
}

/// A download that is refused: chunks beyond or short of the offer are a matter of
/// protocol, everything else one of integrity.
pub fn kind_of_verify_error(e: VerifyError) -> (kind: ErrorKind)
    ensures
        kind == match e {
            VerifyError::UnexpectedChunk => ErrorKind::Protocol,
            VerifyError::MissingChunks => ErrorKind::Protocol,
            VerifyError::ChunkHashMismatch => ErrorKind::Integrity,
            VerifyError::FileHashMismatch => ErrorKind::Integrity,
            VerifyError::Decrypt(_) => ErrorKind::Integrity,
        },
{
    match e {
        VerifyError::UnexpectedChunk => ErrorKind::Protocol,
        VerifyError::MissingChunks => ErrorKind::Protocol,
        VerifyError::ChunkHashMismatch => ErrorKind::Integrity,
        VerifyError::FileHashMismatch => ErrorKind::Integrity,
        VerifyError::Decrypt(_) => ErrorKind::Integrity,
    }
}

/// A send that failed: transient while it is tried again, a matter of resources once it
/// is given up.
pub fn kind_of_send_failure(decision: SendRetry) -> (kind: ErrorKind)
    ensures
        kind == match decision {
            SendRetry::Retry => ErrorKind::TransientNetwork,
            SendRetry::Fatal => ErrorKind::Resource,
        },
{
    match decision {
        SendRetry::Retry => ErrorKind::TransientNetwork,
        SendRetry::Fatal => ErrorKind::Resource,
    }
}

/// Only failures of integrity, of resources and of authentication fail a transfer, and
/// they always do, whatever state it was in.
pub proof fn lemma_what_fails_a_transfer(kind: ErrorKind)
    ensures
        spec_propagation(kind) == Propagation::SurfaceAndStop <==> (kind == ErrorKind::Integrity
            || kind == ErrorKind::Resource || kind == ErrorKind::Auth),
        spec_propagation(kind) == Propagation::RecoverLocally <==> (kind
            == ErrorKind::TransientNetwork || kind == ErrorKind::Protocol),
{
}

} // verus!
