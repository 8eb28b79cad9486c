//! The ceremony's data model: participants, tasks, locators and the
//! records that travel with a contribution.

use vstd::prelude::*;

verus! {

/// The role a participant plays in the ceremony.
#[derive(Clone, Copy, PartialEq, Eq, Structural, Debug)]
pub enum Role {
    Contributor,
    Verifier,
}

/// A ceremony participant: an identity (public key string) and a role.
#[derive(Clone, Debug)]
pub struct Participant {
    pub address: String,
    pub role: Role,
}

impl Participant {
    /// A contributor with the given public key.
    pub fn new_contributor(address: &str) -> (r: Participant)
        ensures
            r.address@ == address@,
            r.role == Role::Contributor,
    {
        Participant { address: String::from_str(address), role: Role::Contributor }
    }

    /// A verifier with the given public key.
    pub fn new_verifier(address: &str) -> (r: Participant)
        ensures
            r.address@ == address@,
            r.role == Role::Verifier,
    {
        Participant { address: String::from_str(address), role: Role::Verifier }
    }

    /// The participant's public key string.
    pub fn address(&self) -> (r: String)
        ensures
            r@ == self.address@,
    {
        self.address.clone()
    }
}

/// A `(chunk_id, contribution_id)` pair identifying one required
/// transformation step.  Immutable once created; consumed when its
/// contribution is verified.
#[derive(Clone, Copy, PartialEq, Eq, Structural, Debug)]
pub struct Task {
    pub chunk_id: u64,
    pub contribution_id: u64,
}

impl Task {
    pub fn new(chunk_id: u64, contribution_id: u64) -> (r: Task)
        ensures
            r == (Task { chunk_id, contribution_id }),
    {
        Task { chunk_id, contribution_id }
    }
}

/// Addressing tuple for the byte object holding one contribution.
/// Maps 1:1 to a named byte range of the storage collaborator.
#[derive(Clone, Copy, PartialEq, Eq, Structural, Debug)]
pub struct ContributionLocator {
    pub round_height: u64,
    pub chunk_id: u64,
    pub contribution_id: u64,
    pub is_verified: bool,
}

impl ContributionLocator {
    pub fn new(round_height: u64, chunk_id: u64, contribution_id: u64, is_verified: bool) -> (r:
        ContributionLocator)
        ensures
            r == (ContributionLocator { round_height, chunk_id, contribution_id, is_verified }),
    {
        ContributionLocator { round_height, chunk_id, contribution_id, is_verified }
    }

    pub fn round_height(&self) -> (r: u64)
        ensures
            r == self.round_height,
    {
        self.round_height
    }

    pub fn chunk_id(&self) -> (r: u64)
        ensures
            r == self.chunk_id,
    {
        self.chunk_id
    }

    pub fn contribution_id(&self) -> (r: u64)
        ensures
            r == self.contribution_id,
    {
        self.contribution_id
    }

    pub fn is_verified(&self) -> (r: bool)
        ensures
            r == self.is_verified,
    {
        self.is_verified
    }
}

/// Addressing tuple for the detached signature stored alongside a
/// contribution.
#[derive(Clone, Copy, PartialEq, Eq, Structural, Debug)]
pub struct ContributionSignatureLocator {
    pub round_height: u64,
    pub chunk_id: u64,
    pub contribution_id: u64,
    pub is_verified: bool,
}

impl ContributionSignatureLocator {
    pub fn new(round_height: u64, chunk_id: u64, contribution_id: u64, is_verified: bool) -> (r:
        ContributionSignatureLocator)
        ensures
            r == (ContributionSignatureLocator {
                round_height,
                chunk_id,
                contribution_id,
                is_verified,
            }),
    {
        ContributionSignatureLocator { round_height, chunk_id, contribution_id, is_verified }
    }
}

/// The locator pair handed out when a chunk is locked: the current
/// verified locator to read the challenge from, and the next unverified
/// locator to write the new contribution to.
#[derive(Clone, Copy, PartialEq, Eq, Structural, Debug)]
pub struct LockedLocators {
    pub current_contribution: ContributionLocator,
    pub next_contribution: ContributionLocator,
}

impl LockedLocators {
    /// The verified locator the challenge is read from.
    pub fn current_contribution(&self) -> (r: ContributionLocator)
        ensures
            r == self.current_contribution,
    {
        self.current_contribution
    }

    /// The unverified locator the new contribution is written to.
    pub fn next_contribution(&self) -> (r: ContributionLocator)
        ensures
            r == self.next_contribution,
    {
        self.next_contribution
    }
}

/// A detached signature computed over a contribution's bytes plus its
/// locator metadata; stored alongside the contribution and used to
/// detect tampering or substitution between upload and verification.
#[derive(Clone, Debug)]
pub struct ContributionFileSignature {
    pub signature: Vec<u8>,
}

impl ContributionFileSignature {
    pub fn new(signature: Vec<u8>) -> (r: ContributionFileSignature)
        ensures
            r.signature@ == signature@,
    {
        ContributionFileSignature { signature }
    }
}

/// The record a contributor uploads about its finished contribution.
#[derive(Clone, Debug)]
pub struct ContributionInfo {
    pub public_key: String,
    pub round: u64,
    pub contribution_hash: Vec<u8>,
}

impl ContributionInfo {
    pub fn new(public_key: String, round: u64, contribution_hash: Vec<u8>) -> (r: ContributionInfo)
        ensures
            r.public_key@ == public_key@,
            r.round == round,
            r.contribution_hash@ == contribution_hash@,
    {
        ContributionInfo { public_key, round, contribution_hash }
    }

    /// The public summary entry for this record.
    pub fn trim(&self) -> (r: TrimmedContributionInfo)
        ensures
            r.public_key@ == self.public_key@,
            r.round == self.round,
    {
        TrimmedContributionInfo { public_key: self.public_key.clone(), round: self.round }
    }
}

/// The public summary entry aggregated for everyone to read.
#[derive(Clone, Debug)]
pub struct TrimmedContributionInfo {
    pub public_key: String,
    pub round: u64,
}

/// An encrypted key file's contents: a participant's seed and private
/// key, each hex-encoded ciphertext produced by the at-rest encryption
/// collaborator.
#[derive(Clone, Debug)]
pub struct AleoSetupKeys {
    pub encrypted_seed: String,
    pub encrypted_private_key: String,
}

} // verus!
