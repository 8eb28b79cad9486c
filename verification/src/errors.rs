//! The typed failures of the coordinator's operation surface.

use vstd::prelude::*;

verus! {

/// The recoverability class of a coordinator failure.
#[derive(Clone, Copy, PartialEq, Eq, Structural, Debug)]
pub enum ErrorKind {
    /// Bad or missing header, bad digest, invalid signature; rejected
    /// before any mutation.
    Authentication,
    /// Wrong participant for an endpoint or chunk; no state change.
    Authorization,
    /// Chunk already locked, task not pending, or contribution id out
    /// of order; the caller retries or polls.
    StateConflict,
    /// A cryptographic check failed; the slot is reassigned and the
    /// round does not advance.
    Verification,
    /// A storage object was absent or malformed.
    Storage,
}

/// A failure of a core coordinator operation.
#[derive(Clone, Copy, PartialEq, Eq, Structural, Debug)]
pub enum CoordinatorError {
    /// The participant is not known to the registry.
    UnknownParticipant,
    /// The participant is already queued, current, or finished.
    AlreadyInQueue,
    /// The registry is at capacity.
    QueueFull,
    /// The operation needs the registry's current participant.
    NotCurrentParticipant,
    /// The participant has no pending task to act on.
    NoPendingTask,
    /// The chunk is already locked by another participant.
    ChunkLocked,
    /// The chunk is not locked at all.
    ChunkNotLocked,
    /// The caller asked to release a lock it does not hold.
    UnauthorizedRelease,
    /// The caller acted on a chunk whose lock another participant
    /// holds.
    NotLockHolder,
    /// The locator does not match the caller's current task.
    TaskNotPending,
    /// Only the coordinator's own verifier may verify contributions.
    UnauthorizedVerifier,
    /// The locator does not name the contribution the caller was asked
    /// to produce.
    WrongLocator,
    /// A contribution was already written for this slot.
    ContributionAlreadyWritten,
    /// The contribution for this slot was already verified.
    ContributionAlreadyVerified,
    /// No contribution has been written for this slot yet.
    ContributionMissing,
    /// The signature slot does not match the written contribution.
    SignatureMismatch,
    /// The verification request names no pending contribution.
    StaleVerification,
    /// The stored contribution no longer matches the digest recorded
    /// at upload time.
    DigestMismatch,
    /// The external collaborator rejected the transformation.
    TransformationRejected,
    /// The copied-forward transcript differs from the produced one.
    InitializationTranscriptsDiffer,
    /// The external initialization step failed.
    InitializationFailed,
    /// A storage object was absent.
    StorageObjectMissing,
    /// The coordinator has been shut down.
    ShutdownInProgress,
}

impl CoordinatorError {
    /// The spec-level class of this failure.
    pub open spec fn spec_kind(self) -> ErrorKind {
        match self {
            CoordinatorError::UnknownParticipant => ErrorKind::Authorization,
            CoordinatorError::AlreadyInQueue => ErrorKind::StateConflict,
            CoordinatorError::QueueFull => ErrorKind::StateConflict,
            CoordinatorError::NotCurrentParticipant => ErrorKind::Authorization,
            CoordinatorError::NoPendingTask => ErrorKind::StateConflict,
            CoordinatorError::ChunkLocked => ErrorKind::StateConflict,
            CoordinatorError::ChunkNotLocked => ErrorKind::StateConflict,
            CoordinatorError::UnauthorizedRelease => ErrorKind::Authorization,
            CoordinatorError::NotLockHolder => ErrorKind::Authorization,
            CoordinatorError::TaskNotPending => ErrorKind::StateConflict,
            CoordinatorError::UnauthorizedVerifier => ErrorKind::Authorization,
            CoordinatorError::WrongLocator => ErrorKind::StateConflict,
            CoordinatorError::ContributionAlreadyWritten => ErrorKind::StateConflict,
            CoordinatorError::ContributionAlreadyVerified => ErrorKind::StateConflict,
            CoordinatorError::ContributionMissing => ErrorKind::StateConflict,
            CoordinatorError::SignatureMismatch => ErrorKind::StateConflict,
            CoordinatorError::StaleVerification => ErrorKind::StateConflict,
            CoordinatorError::DigestMismatch => ErrorKind::Verification,
            CoordinatorError::TransformationRejected => ErrorKind::Verification,
            CoordinatorError::InitializationTranscriptsDiffer => ErrorKind::Verification,
            CoordinatorError::InitializationFailed => ErrorKind::Verification,
            CoordinatorError::StorageObjectMissing => ErrorKind::Storage,
            CoordinatorError::ShutdownInProgress => ErrorKind::StateConflict,
        }
    }

    /// The recoverability class of this failure.
    pub fn kind(&self) -> (k: ErrorKind)
        ensures
            k == self.spec_kind(),
    {
        match self {
            CoordinatorError::UnknownParticipant => ErrorKind::Authorization,
            CoordinatorError::AlreadyInQueue => ErrorKind::StateConflict,
            CoordinatorError::QueueFull => ErrorKind::StateConflict,
            CoordinatorError::NotCurrentParticipant => ErrorKind::Authorization,
            CoordinatorError::NoPendingTask => ErrorKind::StateConflict,
            CoordinatorError::ChunkLocked => ErrorKind::StateConflict,
            CoordinatorError::ChunkNotLocked => ErrorKind::StateConflict,
            CoordinatorError::UnauthorizedRelease => ErrorKind::Authorization,
            CoordinatorError::NotLockHolder => ErrorKind::Authorization,
            CoordinatorError::TaskNotPending => ErrorKind::StateConflict,
            CoordinatorError::UnauthorizedVerifier => ErrorKind::Authorization,
            CoordinatorError::WrongLocator => ErrorKind::StateConflict,
            CoordinatorError::ContributionAlreadyWritten => ErrorKind::StateConflict,
            CoordinatorError::ContributionAlreadyVerified => ErrorKind::StateConflict,
            CoordinatorError::ContributionMissing => ErrorKind::StateConflict,
            CoordinatorError::SignatureMismatch => ErrorKind::StateConflict,
            CoordinatorError::StaleVerification => ErrorKind::StateConflict,
            CoordinatorError::DigestMismatch => ErrorKind::Verification,
            CoordinatorError::TransformationRejected => ErrorKind::Verification,
            CoordinatorError::InitializationTranscriptsDiffer => ErrorKind::Verification,
            CoordinatorError::InitializationFailed => ErrorKind::Verification,
            CoordinatorError::StorageObjectMissing => ErrorKind::Storage,
            CoordinatorError::ShutdownInProgress => ErrorKind::StateConflict,
        }
    }
}

} // verus!
