//! The request-level types and handler logic of the coordinator's
//! operation surface: what each endpoint checks and which coordinator
//! operation it drives.

use crate::auth::ResponseError;
use crate::coordinator::Coordinator;
use crate::coordinator::PendingContribution;
use crate::errors::CoordinatorError;
use crate::objects::ContributionFileSignature;
use crate::objects::ContributionInfo;
use crate::objects::ContributionLocator;
use crate::objects::ContributionSignatureLocator;
use crate::objects::LockedLocators;
use crate::objects::Participant;
use crate::objects::Task;
use crate::objects::TrimmedContributionInfo;
use crate::registry::contains_id;
use crate::registry::count_queued;
use crate::registry::index_of_id;
use crate::registry::ParticipantStatus;
use vstd::prelude::*;

verus! {

/// The status of a contributor relative to the current round.
#[derive(Clone, Copy, PartialEq, Eq, Structural, Debug)]
pub enum ContributorStatus {
    /// Waiting: its position in the queue, then the queue length.
    Queue(u64, u64),
    /// Holder of the current round slot.
    Round,
    Finished,
    Other,
}

/// A request to post a chunk: the contribution bytes, the detached
/// signature, and the locators each must be written to.
#[derive(Clone)]
pub struct PostChunkRequest {
    pub contribution_locator: ContributionLocator,
    pub contribution: Vec<u8>,
    pub contribution_file_signature_locator: ContributionSignatureLocator,
    pub contribution_file_signature: ContributionFileSignature,
}

impl PostChunkRequest {
    pub fn new(
        contribution_locator: ContributionLocator,
        contribution: Vec<u8>,
        contribution_file_signature_locator: ContributionSignatureLocator,
        contribution_file_signature: ContributionFileSignature,
    ) -> (r: PostChunkRequest)
        ensures
            r.contribution_locator == contribution_locator,
            r.contribution@ == contribution@,
            r.contribution_file_signature_locator == contribution_file_signature_locator,
            r.contribution_file_signature.signature@ == contribution_file_signature.signature@,
    {
        PostChunkRequest {
            contribution_locator,
            contribution,
            contribution_file_signature_locator,
            contribution_file_signature,
        }
    }
}

/// A body that is deserialized only after its digest was checked
/// against the declared one.
pub struct LazyJson<T>(pub T);

impl<T> LazyJson<T> {
    pub fn new(value: T) -> (r: LazyJson<T>)
        ensures
            r.0 == value,
    {
        LazyJson(value)
    }

    pub fn get(&self) -> (r: &T)
        ensures
            r == &self.0,
    {
        &self.0
    }

    pub fn into_inner(self) -> (r: T)
        ensures
            r == self.0,
    {
        self.0
    }
}

/// Checks that the task named by the locked locators is pending for
/// the participant, and hands the task back for download.
pub fn get_chunk(c: &Coordinator, participant: &Participant, locked: &LockedLocators) -> (r: Result<
    Task,
    ResponseError,
>)
    requires
        c.wf(),
    ensures
        ({
            let t = Task {
                chunk_id: locked.next_contribution.chunk_id,
                contribution_id: locked.next_contribution.contribution_id,
            };
            match r {
                Ok(task) => {
                    &&& task == t
                    &&& contains_id(c.participants(), participant.address@)
                    &&& c.participants()[index_of_id(
                        c.participants(),
                        participant.address@,
                    )].pending_tasks@.contains(t)
                },
                Err(e) => match e {
                    ResponseError::UnknownContributor(a) => a@ == participant.address@
                        && !contains_id(c.participants(), participant.address@),
                    ResponseError::UnknownTask(bad) => bad == t && contains_id(
                        c.participants(),
                        participant.address@,
                    ) && !c.participants()[index_of_id(
                        c.participants(),
                        participant.address@,
                    )].pending_tasks@.contains(t),
                    _ => false,
                },
            }
        }),
{
    let next = locked.next_contribution();
    let task = Task::new(next.chunk_id(), next.contribution_id());
    let i = match c.registry.find(&participant.address) {
        Some(i) => i,
        None => {
            return Err(ResponseError::UnknownContributor(participant.address()));
        },
    };
    proof {
        crate::registry::lemma_index_of_id_unique(
            c.participants(),
            participant.address@,
            i as int,
        );
        assert(contains_id(c.participants(), participant.address@)) by {
            assert(c.participants()[i as int].id@ == participant.address@);
        }
    }
    let pending = &c.registry.participants[i].pending_tasks;
    let n = pending.len();
    let mut j: usize = 0;
    while j < n
        invariant
            j <= n,
            n == pending@.len(),
            i < c.participants().len(),
            contains_id(c.participants(), participant.address@),
            index_of_id(c.participants(), participant.address@) == i as int,
            pending@ == c.participants()[i as int].pending_tasks@,
            task == (Task {
                chunk_id: locked.next_contribution.chunk_id,
                contribution_id: locked.next_contribution.contribution_id,
            }),
            forall|k: int| 0 <= k < j ==> pending@[k] != task,
        decreases n - j,
    {
        if pending[j] == task {
            proof {
                assert(pending@.contains(task)) by {
                    assert(pending@[j as int] == task);
                }
            }
            return Ok(task);
        }
        j = j + 1;
    }
    proof {
        if pending@.contains(task) {
            let w = choose|w: int| 0 <= w < pending@.len() && pending@[w] == task;
            assert(pending@[w] != task);
        }
    }
    Err(ResponseError::UnknownTask(task))
}

/// The queue status told to a contributor: current participants are in
/// the round, queued ones learn their position and the queue length,
/// finished ones that they are done.
pub fn get_contributor_queue_status(c: &Coordinator, participant: &Participant) -> (r:
    ContributorStatus)
    requires
        c.wf(),
    ensures
        ({
            let ps = c.participants();
            if !contains_id(ps, participant.address@) {
                r == ContributorStatus::Other
            } else {
                let i = index_of_id(ps, participant.address@);
                match ps[i].status {
                    ParticipantStatus::Current => r == ContributorStatus::Round,
                    ParticipantStatus::Queued => r == ContributorStatus::Queue(
                        (match ps[i].target_round {
                            Option::Some(t) => t - c.round_height,
                            Option::None => count_queued(ps) as int,
                        }) as u64,
                        count_queued(ps) as u64,
                    ),
                    ParticipantStatus::Finished => r == ContributorStatus::Finished,
                    ParticipantStatus::Dropped => r == ContributorStatus::Other,
                }
            }
        }),
{
    let i = match c.registry.find(&participant.address) {
        Some(i) => i,
        None => {
            return ContributorStatus::Other;
        },
    };
    proof {
        crate::registry::lemma_index_of_id_unique(
            c.participants(),
            participant.address@,
            i as int,
        );
        crate::registry::lemma_count_queued_le_len(c.participants());
    }
    let queue_size = c.registry.queue_len() as u64;
    match c.registry.participants[i].status {
        ParticipantStatus::Current => ContributorStatus::Round,
        ParticipantStatus::Queued => {
            let position = match c.registry.participants[i].target_round {
                Some(t) => {
                    proof {
                        assert(crate::registry::queued_at(c.participants(), i as int));
                        assert(t >= c.round_height + 1 + crate::registry::queued_rank(
                            c.participants(),
                            i as int,
                        ));
                    }
                    t - c.round_height
                },
                None => queue_size,
            };
            ContributorStatus::Queue(position, queue_size)
        },
        ParticipantStatus::Finished => ContributorStatus::Finished,
        ParticipantStatus::Dropped => ContributorStatus::Other,
    }
}

/// Accepts a contributor's contribution-info record: only the current
/// or a finished contributor may upload it; the record is stored and
/// its public summary appended.
pub fn post_contribution_info(
    c: &mut Coordinator,
    participant: &Participant,
    request: &LazyJson<ContributionInfo>,
) -> (r: Result<(), ResponseError>)
    requires
        old(c).wf(),
    ensures
        final(c).wf(),
        ({
            let ps = old(c).participants();
            let allowed = contains_id(ps, participant.address@) && (ps[index_of_id(
                ps,
                participant.address@,
            )].status == ParticipantStatus::Current || ps[index_of_id(
                ps,
                participant.address@,
            )].status == ParticipantStatus::Finished);
            match r {
                Ok(()) => {
                    &&& allowed
                    &&& final(c).contributions_info@.len() == old(c).contributions_info@.len() + 1
                    &&& final(c).contributions_summary@.len() == old(
                        c,
                    ).contributions_summary@.len() + 1
                    &&& final(c).contributions_summary@.last().public_key@
                        == request.0.public_key@
                    &&& final(c).contributions_summary@.last().round == request.0.round
                },
                Err(e) => {
                    &&& !allowed
                    &&& *final(c) == *old(c)
                    &&& e matches ResponseError::UnauthorizedParticipant(p, _) && p@
                        == participant.address@
                },
            }
        }),
{
    let allowed = match c.registry.find(&participant.address) {
        Some(i) => {
            proof {
                crate::registry::lemma_index_of_id_unique(
                    c.participants(),
                    participant.address@,
                    i as int,
                );
            }
            matches!(
                c.registry.participants[i].status,
                ParticipantStatus::Current | ParticipantStatus::Finished
            )
        },
        None => false,
    };
    if !allowed {
        return Err(
            ResponseError::UnauthorizedParticipant(
                participant.address(),
                String::from_str("/contributor/contribution_info"),
            ),
        );
    }
    let info = request.get();
    let summary = info.trim();
    c.write_contribution_info(
        ContributionInfo {
            public_key: info.public_key.clone(),
            round: info.round,
            contribution_hash: crate::storage::clone_bytes(&info.contribution_hash),
        },
    );
    c.update_contribution_summary(summary);
    Ok(())
}

/// Uploads a chunk: writes the contribution bytes at their locator,
/// then records the detached signature, which releases the chunk's
/// lock.  A failure of the first step leaves the state untouched; a
/// failure of the second leaves the contribution written but unsigned,
/// so the signature can be resent.
pub fn post_contribution_chunk(
    c: &mut Coordinator,
    participant: &Participant,
    request: PostChunkRequest,
) -> (r: Result<(), ResponseError>)
    requires
        old(c).wf(),
    ensures
        final(c).wf(),
        match r {
            Ok(()) => {
                let i = index_of_id(old(c).participants(), participant.address@);
                let cloc = request.contribution_locator;
                let sloc = request.contribution_file_signature_locator;
                &&& old(c).write_contribution_outcome(participant.address@, cloc) is Ok
                // the contribution bytes and the detached signature are
                // stored, byte-identically, in the final state
                &&& final(c).storage.get_spec(crate::storage::Locator::ContributionFile(cloc))
                    == Some(request.contribution@)
                &&& final(c).storage.get_spec(
                    crate::storage::Locator::ContributionFileSignature(sloc),
                ) == Some(request.contribution_file_signature.signature@)
                // the slot awaits verification and the chunk's lock is gone
                &&& (final(c).chunks@[sloc.chunk_id as int].pending
                    matches PendingContribution::Awaiting { contributor, contribution_id, digest }
                    && contributor == i && contribution_id == sloc.contribution_id && (sloc.chunk_id
                    == cloc.chunk_id ==> digest@ == crate::digests::blake2b_of(
                    request.contribution@,
                )))
                &&& !final(c).is_locked_spec(sloc.chunk_id)
                &&& forall|c2: u64|
                    c2 != sloc.chunk_id ==> final(c).is_locked_spec(c2) == old(c).is_locked_spec(
                        c2,
                    )
            },
            Err(e) => e matches ResponseError::CoordinatorError(ce) && ((
            old(c).write_contribution_outcome(participant.address@, request.contribution_locator)
                == Err::<(), CoordinatorError>(ce) && *final(c) == *old(c)) || ({
                let i = index_of_id(old(c).participants(), participant.address@);
                let cloc = request.contribution_locator;
                &&& old(c).write_contribution_outcome(participant.address@, cloc) is Ok
                // the contribution stays written, so the signature can
                // be resent
                &&& final(c).storage.get_spec(crate::storage::Locator::ContributionFile(cloc))
                    == Some(request.contribution@)
                &&& (final(c).chunks@[cloc.chunk_id as int].pending
                    matches PendingContribution::Written { contributor, contribution_id, digest }
                    && contributor == i && contribution_id == cloc.contribution_id && digest@
                    == crate::digests::blake2b_of(request.contribution@))
                &&& final(c).write_signature_outcome(
                    participant.address@,
                    request.contribution_file_signature_locator,
                ) == Err::<(), CoordinatorError>(ce)
            })),
        },
{
    match c.write_contribution(participant, request.contribution_locator, request.contribution) {
        Ok(()) => {},
        Err(e) => {
            return Err(ResponseError::CoordinatorError(e));
        },
    }
    let ghost mid = *c;
    match c.write_contribution_file_signature(
        participant,
        request.contribution_file_signature_locator,
        request.contribution_file_signature,
    ) {
        Ok(()) => {
            proof {
                assert(mid.wf());
                assert(mid.write_signature_outcome(
                    participant.address@,
                    request.contribution_file_signature_locator,
                ) is Ok);
            }
            Ok(())
        },
        Err(e) => {
            proof {
                assert(*final(c) == mid);
            }
            Err(ResponseError::CoordinatorError(e))
        },
    }
}

/// The public, unauthenticated view of the contributions made so far.
pub fn get_contributions_info(c: &Coordinator) -> (r: Vec<TrimmedContributionInfo>)
    ensures
        r@.len() == c.contributions_summary@.len(),
        forall|j: int|
            0 <= j < r@.len() ==> (#[trigger] r@[j]).public_key@
                == c.contributions_summary@[j].public_key@ && r@[j].round
                == c.contributions_summary@[j].round,
{
    c.get_contributions_info()
}

} // verus!
