//! The coordinator core: the single owner of the ceremony state.
//!
//! Every externally reachable operation is a method here; it mutates
//! the state under the caller's exclusive access and returns a result
//! or a typed failure.  The round advances one verified contribution
//! per chunk at a time: round N is complete exactly when every chunk
//! holds a verified contribution at the round's expected contribution
//! id, and completion triggers the next round's tasks.

use crate::digests::blake2b_digest;
use crate::digests::blake2b_of;
use crate::errors::CoordinatorError;
use crate::objects::ContributionLocator;
use crate::objects::LockedLocators;
use crate::objects::Participant;
use crate::objects::Task;
use crate::registry::contains_id;
use crate::registry::count_current;
use crate::registry::count_queued;
use crate::registry::ids_distinct;
use crate::registry::lemma_count_current_update;
use crate::registry::lemma_count_queued_le_len;
use crate::registry::lemma_rank_update;
use crate::registry::queued_at;
use crate::registry::queued_rank;
use crate::registry::ParticipantInfo;
use crate::registry::ParticipantRegistry;
use crate::registry::ParticipantStatus;
use crate::storage::clone_bytes;
use crate::storage::MemoryStorage;
use vstd::prelude::*;

verus! {

/// How many verified contributions a chunk needs in one round: each
/// round admits one contributor, whose transformation step is the
/// round's single expected contribution per chunk.
pub const CONTRIBUTIONS_PER_ROUND: u64 = 1;

/// A generous ceiling on the round height, so that height arithmetic
/// can never overflow; the ceremony halts rather than wrap.
pub const MAX_ROUND_HEIGHT: u64 = 0x1000000000000000;

/// Where one chunk stands in the upload-and-verify pipeline of the
/// current round.
pub enum PendingContribution {
    /// Nothing uploaded for the chunk's next contribution slot.
    Empty,
    /// A contribution was uploaded but its detached signature was not;
    /// the chunk's lock is still held.  `digest` is the transcript
    /// digest of the uploaded bytes, recorded at upload time.
    Written { contributor: usize, contribution_id: u64, digest: Vec<u8> },
    /// Contribution and signature are both stored; the slot waits for
    /// the verifier.
    Awaiting { contributor: usize, contribution_id: u64, digest: Vec<u8> },
}

/// One chunk's verification progress within the current round.
pub struct ChunkState {
    /// The highest verified contribution id this round; `0` names the
    /// round's challenge.
    pub verified_id: u64,
    pub pending: PendingContribution,
    /// The transcript digest recorded when the chunk's latest
    /// contribution was verified; empty before the first verification.
    pub last_verified_digest: Vec<u8>,
    /// The verified contribution ids of this round, in verification
    /// order.
    pub history: Ghost<Seq<u64>>,
}

/// An exclusive claim by one participant over one chunk.
pub struct Lock {
    pub chunk_id: u64,
    /// The registry index of the holder.
    pub holder: usize,
    /// The contribution id the holder was asked to produce.
    pub contribution_id: u64,
    /// The instant the lock was taken.
    pub acquired_at: u64,
}

/// Whether the chunk still wants a contribution this round and has
/// nothing uploaded for it.
pub open spec fn chunk_open(ch: ChunkState) -> bool {
    ch.verified_id < CONTRIBUTIONS_PER_ROUND && ch.pending is Empty
}

/// The tasks a newly promoted participant must work: one per chunk
/// that still wants a contribution, in increasing chunk-id order.
pub open spec fn open_tasks_seq(chunks: Seq<ChunkState>) -> Seq<Task>
    decreases chunks.len(),
{
    if chunks.len() == 0 {
        Seq::empty()
    } else {
        let pre = open_tasks_seq(chunks.drop_last());
        if chunk_open(chunks.last()) {
            pre.push(
                Task {
                    chunk_id: (chunks.len() - 1) as u64,
                    contribution_id: (chunks.last().verified_id + 1) as u64,
                },
            )
        } else {
            pre
        }
    }
}

/// The tasks whose contributions await verification, in increasing
/// chunk-id order.
pub open spec fn awaiting_seq(chunks: Seq<ChunkState>) -> Seq<Task>
    decreases chunks.len(),
{
    if chunks.len() == 0 {
        Seq::empty()
    } else {
        let pre = awaiting_seq(chunks.drop_last());
        match chunks.last().pending {
            PendingContribution::Awaiting { contribution_id, .. } => pre.push(
                Task { chunk_id: (chunks.len() - 1) as u64, contribution_id },
            ),
            _ => pre,
        }
    }
}

/// `p` is the queued participant that joined earliest.
pub open spec fn first_queued_at(ps: Seq<ParticipantInfo>, p: int) -> bool {
    &&& 0 <= p < ps.len()
    &&& queued_at(ps, p)
    &&& forall|j: int| 0 <= j < p ==> !queued_at(ps, j)
}

/// `post` is `pre` with the queued participant at `p` promoted to
/// current and handed `tasks`.
pub open spec fn is_promotion_of(
    pre: Seq<ParticipantInfo>,
    post: Seq<ParticipantInfo>,
    p: int,
    tasks: Seq<Task>,
) -> bool {
    &&& 0 <= p < pre.len()
    &&& post.len() == pre.len()
    &&& queued_at(pre, p)
    &&& forall|j: int| 0 <= j < pre.len() && j != p ==> post[j] == pre[j]
    &&& post[p].id == pre[p].id
    &&& post[p].status == ParticipantStatus::Current
    &&& post[p].pending_tasks@ == tasks
    &&& post[p].uploaded_tasks@ == Seq::<Task>::empty()
    &&& post[p].last_heartbeat == pre[p].last_heartbeat
    &&& post[p].target_round is None
}

/// The registry with every queued participant's target round cleared,
/// as after a round advance.
pub open spec fn with_cleared_targets(ps: Seq<ParticipantInfo>) -> Seq<ParticipantInfo> {
    Seq::new(
        ps.len(),
        |j: int|
            if queued_at(ps, j) {
                ParticipantInfo { target_round: Option::None, ..ps[j] }
            } else {
                ps[j]
            },
    )
}

/// `post` is `pre` after the awaiting contribution of chunk `cu` was
/// marked rejected: the slot empties, nothing advances, and the task
/// returns to the contributor's pending list if it is still current.
pub open spec fn is_rejection_of(
    pre: Coordinator,
    post: Coordinator,
    cu: int,
    p: int,
    k: u64,
) -> bool {
    let t = Task { chunk_id: cu as u64, contribution_id: k };
    &&& post.contributions_info == pre.contributions_info
    &&& post.contributions_summary == pre.contributions_summary
    &&& post.round_height == pre.round_height
    &&& post.locks == pre.locks
    &&& post.storage == pre.storage
    &&& post.verifier == pre.verifier
    &&& post.heartbeat_timeout == pre.heartbeat_timeout
    &&& post.lock_timeout == pre.lock_timeout
    &&& post.shut_down == pre.shut_down
    &&& post.chunks@.len() == pre.chunks@.len()
    &&& forall|j: int| 0 <= j < pre.chunks@.len() && j != cu ==> post.chunks@[j] == pre.chunks@[j]
    &&& post.chunks@[cu].pending is Empty
    &&& post.chunks@[cu].verified_id == pre.chunks@[cu].verified_id
    &&& post.chunks@[cu].last_verified_digest == pre.chunks@[cu].last_verified_digest
    &&& post.chunks@[cu].history == pre.chunks@[cu].history
    &&& post.participants().len() == pre.participants().len()
    &&& forall|j: int|
        0 <= j < pre.participants().len() && j != p ==> post.participants()[j]
            == pre.participants()[j]
    &&& post.participants()[p].status == pre.participants()[p].status
    &&& post.participants()[p].id == pre.participants()[p].id
    &&& post.participants()[p].target_round == pre.participants()[p].target_round
    &&& post.participants()[p].last_heartbeat == pre.participants()[p].last_heartbeat
    &&& pre.participants()[p].status == ParticipantStatus::Current ==> post.participants()[p].pending_tasks@
        == seq![t] + pre.participants()[p].pending_tasks@
    &&& pre.participants()[p].status != ParticipantStatus::Current ==> post.participants()[p].pending_tasks@
        == pre.participants()[p].pending_tasks@
}

/// `post` is `pre` with the awaiting contribution of chunk `cu`
/// verified: the chunk's verified id advances by exactly one, with no
/// gap and no skip, the digest of the stored bytes is recorded, and the
/// task leaves the contributor's uploaded list.  `d` is the recorded
/// transcript digest.
pub open spec fn is_bump_of(
    pre: Coordinator,
    post: Coordinator,
    cu: int,
    p: int,
    k: u64,
    d: Seq<u8>,
) -> bool {
    &&& post.contributions_info == pre.contributions_info
    &&& post.contributions_summary == pre.contributions_summary
    &&& post.round_height == pre.round_height
    &&& post.verifier == pre.verifier
    &&& post.heartbeat_timeout == pre.heartbeat_timeout
    &&& post.lock_timeout == pre.lock_timeout
    &&& post.shut_down == pre.shut_down
    &&& post.chunks@.len() == pre.chunks@.len()
    &&& forall|j: int| 0 <= j < pre.chunks@.len() && j != cu ==> post.chunks@[j] == pre.chunks@[j]
    &&& post.chunks@[cu].verified_id == k
    &&& post.chunks@[cu].verified_id == pre.chunks@[cu].verified_id + 1
    &&& post.chunks@[cu].pending is Empty
    &&& post.chunks@[cu].last_verified_digest@ == d
    &&& post.chunks@[cu].history@ == pre.chunks@[cu].history@.push(k)
    &&& !post.is_locked_spec(cu as u64)
    &&& forall|c2: u64| c2 != cu ==> post.is_locked_spec(c2) == pre.is_locked_spec(c2)
    &&& post.participants().len() == pre.participants().len()
    &&& forall|j: int|
        0 <= j < pre.participants().len() && j != p ==> post.participants()[j]
            == pre.participants()[j]
    &&& post.participants()[p].id == pre.participants()[p].id
    &&& post.participants()[p].pending_tasks == pre.participants()[p].pending_tasks
    &&& post.participants()[p].last_heartbeat == pre.participants()[p].last_heartbeat
    &&& post.participants()[p].target_round == pre.participants()[p].target_round
    &&& (post.participants()[p].status == pre.participants()[p].status
        || post.participants()[p].status == ParticipantStatus::Finished)
    &&& pre.participants()[p].uploaded_tasks@.contains(
        Task { chunk_id: cu as u64, contribution_id: k },
    ) ==> post.participants()[p].uploaded_tasks@.len()
        == pre.participants()[p].uploaded_tasks@.len() - 1
}

/// `post` is `mid` after the round-completion check: if every chunk of
/// `mid` reached the expected contribution id, the round advances, all
/// chunks open again, queued targets are reconsidered, and the earliest
/// queued participant is promoted with the new round's tasks; otherwise
/// nothing changes.
pub open spec fn is_completion_of(mid: Coordinator, post: Coordinator) -> bool {
    if mid.round_complete_spec() && mid.round_height < MAX_ROUND_HEIGHT {
        let cleared = with_cleared_targets(mid.participants());
        &&& post.contributions_info == mid.contributions_info
        &&& post.contributions_summary == mid.contributions_summary
        &&& post.round_height == mid.round_height + 1
        &&& post.storage == mid.storage
        &&& post.verifier == mid.verifier
        &&& post.heartbeat_timeout == mid.heartbeat_timeout
        &&& post.lock_timeout == mid.lock_timeout
        &&& post.shut_down == mid.shut_down
        &&& post.locks@.len() == 0
        &&& post.chunks@.len() == mid.chunks@.len()
        &&& forall|c: int|
            0 <= c < post.chunks@.len() ==> chunk_open(#[trigger] post.chunks@[c])
                && post.chunks@[c].verified_id == 0 && post.chunks@[c].last_verified_digest
                == mid.chunks@[c].last_verified_digest
        &&& if count_current(cleared) == 0 && open_tasks_seq(post.chunks@).len() > 0
            && count_queued(cleared) > 0 {
            exists|q: int|
                first_queued_at(cleared, q) && is_promotion_of(
                    cleared,
                    post.participants(),
                    q,
                    open_tasks_seq(post.chunks@),
                )
        } else {
            post.participants() == cleared
        }
    } else {
        post == mid
    }
}

/// One chunk's local well-formedness: pending contributions always
/// name the next contribution id, and the verified history is exactly
/// the gap-free sequence `1, 2, ...` up to `verified_id`.
pub open spec fn chunk_wf(ch: ChunkState, n_participants: nat) -> bool {
    &&& ch.verified_id <= CONTRIBUTIONS_PER_ROUND
    &&& ch.history@ == Seq::new(ch.verified_id as nat, |i: int| (i + 1) as u64)
    &&& match ch.pending {
        PendingContribution::Empty => true,
        PendingContribution::Written { contributor, contribution_id, .. } => contributor
            < n_participants && contribution_id == ch.verified_id + 1 && ch.verified_id
            < CONTRIBUTIONS_PER_ROUND,
        PendingContribution::Awaiting { contributor, contribution_id, .. } => contributor
            < n_participants && contribution_id == ch.verified_id + 1 && ch.verified_id
            < CONTRIBUTIONS_PER_ROUND,
    }
}

/// The aggregate the coordinator owns: current round, registry, active
/// locks, per-chunk pipeline state and the byte storage.
pub struct Coordinator {
    /// The current round height; the ceremony starts at round 1.
    pub round_height: u64,
    /// Per-chunk pipeline state; the chunk count never changes.
    pub chunks: Vec<ChunkState>,
    /// The active locks; at most one per chunk.
    pub locks: Vec<Lock>,
    pub registry: ParticipantRegistry,
    pub storage: MemoryStorage,
    /// The identity (public key) of the coordinator's own verifier,
    /// the only participant allowed to verify contributions.
    pub verifier: String,
    /// Seconds without a heartbeat before a participant is dropped.
    pub heartbeat_timeout: u64,
    /// Seconds before a held lock is swept by maintenance.
    pub lock_timeout: u64,
    /// The uploaded contribution records, in upload order.
    pub contributions_info: Vec<crate::objects::ContributionInfo>,
    /// The public summary of the uploaded records, in upload order.
    pub contributions_summary: Vec<crate::objects::TrimmedContributionInfo>,
    /// Set once the ceremony has been stopped.
    pub shut_down: bool,
}

impl Coordinator {
    pub open spec fn n_chunks(&self) -> nat {
        self.chunks@.len()
    }

    pub open spec fn participants(&self) -> Seq<ParticipantInfo> {
        self.registry.participants@
    }

    /// Whether some participant holds a lock on chunk `c`.
    pub open spec fn is_locked_spec(&self, c: u64) -> bool {
        exists|a: int| 0 <= a < self.locks@.len() && (#[trigger] self.locks@[a]).chunk_id == c
    }

    /// Whether the participant at registry index `h` holds a lock on
    /// chunk `c`.
    pub open spec fn locked_by_spec(&self, c: u64, h: int) -> bool {
        exists|a: int|
            0 <= a < self.locks@.len() && (#[trigger] self.locks@[a]).chunk_id == c
                && self.locks@[a].holder == h
    }

    /// At most one lock exists per chunk, and every lock names a real
    /// chunk, a real holder, and the holder is current; a locked chunk
    /// still wants a contribution this round.
    pub open spec fn locks_wf(&self) -> bool {
        &&& forall|a: int, b: int|
            0 <= a < b < self.locks@.len() ==> (#[trigger] self.locks@[a]).chunk_id != (
            #[trigger] self.locks@[b]).chunk_id
        &&& forall|a: int|
            0 <= a < self.locks@.len() ==> {
                let l = #[trigger] self.locks@[a];
                &&& l.chunk_id < self.n_chunks()
                &&& l.holder < self.participants().len()
                &&& self.participants()[l.holder as int].status == ParticipantStatus::Current
                &&& l.contribution_id == self.chunks@[l.chunk_id as int].verified_id + 1
                &&& self.chunks@[l.chunk_id as int].verified_id < CONTRIBUTIONS_PER_ROUND
            }
    }

    /// Every queued participant's assigned target round keeps its
    /// queue position at or above its rank: the position can only
    /// shrink as rounds advance and participants ahead leave.
    pub open spec fn targets_wf(&self) -> bool {
        forall|j: int|
            0 <= j < self.participants().len() && queued_at(self.participants(), j) && (
            #[trigger] self.participants()[j]).target_round is Some
                ==> self.participants()[j].target_round->0 >= self.round_height + 1 + queued_rank(
                self.participants(),
                j,
            )
    }

    /// The coordinator's invariant.
    pub open spec fn wf(&self) -> bool {
        &&& self.registry.wf()
        &&& self.locks_wf()
        &&& forall|c: int|
            0 <= c < self.n_chunks() ==> chunk_wf(
                #[trigger] self.chunks@[c],
                self.participants().len(),
            )
        &&& self.targets_wf()
        &&& 1 <= self.round_height <= MAX_ROUND_HEIGHT
    }

    /// A coordinator for a fresh ceremony: round 1, no participants,
    /// every chunk open, nothing stored.
    pub fn new(number_of_chunks: usize, verifier: String, heartbeat_timeout: u64, lock_timeout: u64)
        -> (r: Coordinator)
        ensures
            r.wf(),
            r.round_height == 1,
            r.contributions_info@.len() == 0,
            r.contributions_summary@.len() == 0,
            r.n_chunks() == number_of_chunks,
            r.participants().len() == 0,
            r.locks@.len() == 0,
            forall|c: int| 0 <= c < number_of_chunks ==> chunk_open(#[trigger] r.chunks@[c]),
            forall|c: int| 0 <= c < number_of_chunks ==> (#[trigger] r.chunks@[c]).verified_id == 0,
            r.verifier == verifier,
            r.heartbeat_timeout == heartbeat_timeout,
            r.lock_timeout == lock_timeout,
            !r.shut_down,
    {
        let mut chunks: Vec<ChunkState> = Vec::new();
        let mut c: usize = 0;
        while c < number_of_chunks
            invariant
                c <= number_of_chunks,
                chunks@.len() == c,
                forall|k: int|
                    0 <= k < c ==> chunk_open(#[trigger] chunks@[k]) && chunks@[k].verified_id == 0
                        && chunk_wf(chunks@[k], 0),
            decreases number_of_chunks - c,
        {
            chunks.push(
                ChunkState {
                    verified_id: 0,
                    pending: PendingContribution::Empty,
                    last_verified_digest: Vec::new(),
                    history: Ghost(Seq::empty()),
                },
            );
            proof {
                assert(chunks@.last().history@ =~= Seq::new(0nat, |i: int| (i + 1) as u64));
            }
            c = c + 1;
        }
        Coordinator {
            round_height: 1,
            chunks,
            locks: Vec::new(),
            registry: ParticipantRegistry::new(),
            storage: MemoryStorage::new(),
            verifier,
            heartbeat_timeout,
            lock_timeout,
            contributions_info: Vec::new(),
            contributions_summary: Vec::new(),
            shut_down: false,
        }
    }

    /// The tasks a newly promoted participant would be handed now.
    pub fn open_tasks(&self) -> (r: Vec<Task>)
        ensures
            r@ == open_tasks_seq(self.chunks@),
    {
        let n = self.chunks.len();
        let mut out: Vec<Task> = Vec::new();
        let mut c: usize = 0;
        proof {
            assert(self.chunks@.take(0) =~= Seq::<ChunkState>::empty());
        }
        while c < n
            invariant
                c <= n,
                n == self.chunks@.len(),
                out@ == open_tasks_seq(self.chunks@.take(c as int)),
                forall|k: int|
                    0 <= k < self.chunks@.len() ==> (#[trigger] self.chunks@[k]).verified_id
                        <= CONTRIBUTIONS_PER_ROUND || !chunk_open(self.chunks@[k]),
            decreases n - c,
        {
            proof {
                let t = self.chunks@.take(c as int + 1);
                assert(t.last() == self.chunks@[c as int]);
                assert(t.drop_last() =~= self.chunks@.take(c as int));
            }
            let ch = &self.chunks[c];
            let open = match ch.pending {
                PendingContribution::Empty => ch.verified_id < CONTRIBUTIONS_PER_ROUND,
                _ => false,
            };
            if open {
                out.push(Task { chunk_id: c as u64, contribution_id: ch.verified_id + 1 });
            }
            c = c + 1;
        }
        proof {
            assert(self.chunks@.take(n as int) =~= self.chunks@);
        }
        out
    }

    /// The tasks whose contributions currently await verification.
    pub fn get_pending_verifications(&self) -> (r: Vec<Task>)
        ensures
            r@ == awaiting_seq(self.chunks@),
    {
        let n = self.chunks.len();
        let mut out: Vec<Task> = Vec::new();
        let mut c: usize = 0;
        proof {
            assert(self.chunks@.take(0) =~= Seq::<ChunkState>::empty());
        }
        while c < n
            invariant
                c <= n,
                n == self.chunks@.len(),
                out@ == awaiting_seq(self.chunks@.take(c as int)),
            decreases n - c,
        {
            proof {
                let t = self.chunks@.take(c as int + 1);
                assert(t.last() == self.chunks@[c as int]);
                assert(t.drop_last() =~= self.chunks@.take(c as int));
            }
            let ch = &self.chunks[c];
            match &ch.pending {
                PendingContribution::Awaiting { contribution_id, .. } => {
                    out.push(Task { chunk_id: c as u64, contribution_id: *contribution_id });
                },
                _ => {},
            }
            c = c + 1;
        }
        proof {
            assert(self.chunks@.take(n as int) =~= self.chunks@);
        }
        out
    }

    /// Everything but the registry is as it was.
    pub open spec fn same_but_registry(&self, other: &Coordinator) -> bool {
        &&& self.contributions_info == other.contributions_info
        &&& self.contributions_summary == other.contributions_summary
        &&& self.round_height == other.round_height
        &&& self.chunks == other.chunks
        &&& self.locks == other.locks
        &&& self.storage == other.storage
        &&& self.verifier == other.verifier
        &&& self.heartbeat_timeout == other.heartbeat_timeout
        &&& self.lock_timeout == other.lock_timeout
        &&& self.shut_down == other.shut_down
    }

    /// Whether some participant is current.
    pub fn has_current(&self) -> (r: bool)
        ensures
            r == (count_current(self.participants()) > 0),
    {
        let n = self.registry.participants.len();
        let mut i: usize = 0;
        while i < n
            invariant
                i <= n,
                n == self.participants().len(),
                forall|j: int|
                    0 <= j < i ==> (#[trigger] self.participants()[j]).status
                        != ParticipantStatus::Current,
            decreases n - i,
        {
            if matches!(self.registry.participants[i].status, ParticipantStatus::Current) {
                proof {
                    crate::registry::lemma_count_current_zero_iff(self.participants());
                    assert(self.participants()[i as int].status == ParticipantStatus::Current);
                }
                return true;
            }
            i = i + 1;
        }
        proof {
            crate::registry::lemma_count_current_zero_iff(self.participants());
        }
        false
    }

    /// Promotes the queued participant at `i` into the current round
    /// slot, handing it one task per open chunk.
    fn promote(&mut self, i: usize)
        requires
            old(self).wf(),
            i < old(self).participants().len(),
            queued_at(old(self).participants(), i as int),
            count_current(old(self).participants()) == 0,
        ensures
            final(self).wf(),
            final(self).same_but_registry(old(self)),
            is_promotion_of(
                old(self).participants(),
                final(self).participants(),
                i as int,
                open_tasks_seq(old(self).chunks@),
            ),
            count_current(final(self).participants()) == 1,
    {
        let ghost pre = self.participants();
        let tasks = self.open_tasks();
        self.registry.set_status(i, ParticipantStatus::Current);
        self.registry.set_tasks(i, tasks, Vec::new());
        self.registry.set_target(i, None);
        proof {
            let post = self.participants();
            assert(forall|j: int| 0 <= j < pre.len() && j != i ==> post[j] == pre[j]);
            assert(post[i as int].status == ParticipantStatus::Current);
            // identities are untouched, so distinctness survives
            assert(ids_distinct(post)) by {
                assert(forall|j: int| 0 <= j < pre.len() ==> post[j].id == pre[j].id);
            }
            // exactly one participant became current
            lemma_count_current_update(
                pre,
                i as int,
                ParticipantInfo { status: ParticipantStatus::Current, ..pre[i as int] },
            );
            crate::registry::lemma_count_current_pointwise(
                pre.update(
                    i as int,
                    ParticipantInfo { status: ParticipantStatus::Current, ..pre[i as int] },
                ),
                post,
            );
            // no locks could exist: a lock's holder would have been current
            assert(self.locks@.len() == 0) by {
                crate::registry::lemma_count_current_zero_iff(pre);
                if self.locks@.len() > 0 {
                    assert(pre[self.locks@[0].holder as int].status == ParticipantStatus::Current);
                }
            }
            // a promoted participant keeps everyone's target sound: ranks
            // of those behind it only shrink
            assert(final(self).targets_wf()) by {
                assert forall|j: int|
                    0 <= j < post.len() && queued_at(post, j) && (
                    #[trigger] post[j]).target_round is Some implies post[j].target_round->0
                    >= final(self).round_height + 1 + queued_rank(post, j) by {
                    assert(j != i);
                    assert(post[j] == pre[j]);
                    lemma_rank_update(
                        pre,
                        i as int,
                        ParticipantInfo { status: ParticipantStatus::Current, ..pre[i as int] },
                        j,
                    );
                    crate::registry::lemma_count_queued_pointwise(
                        pre.update(
                            i as int,
                            ParticipantInfo {
                                status: ParticipantStatus::Current,
                                ..pre[i as int]
                            },
                        ).take(j),
                        post.take(j),
                    );
                }
            }
        }
    }

    /// If no participant is current and some chunk is open, promotes
    /// the earliest queued participant, if any.
    #[verifier::rlimit(30)]
    fn ensure_current_contributor(&mut self)
        requires
            old(self).wf(),
        ensures
            final(self).wf(),
            final(self).same_but_registry(old(self)),
            final(self).participants().len() == old(self).participants().len(),
            forall|j: int|
                0 <= j < old(self).participants().len() ==> {
                    let pre_j = old(self).participants()[j];
                    let post_j = #[trigger] final(self).participants()[j];
                    &&& post_j.id == pre_j.id
                    &&& post_j.last_heartbeat == pre_j.last_heartbeat
                    &&& (post_j.status == pre_j.status || (pre_j.status
                        == ParticipantStatus::Queued && post_j.status
                        == ParticipantStatus::Current))
                },
            ({
                let pre = old(self).participants();
                let post = final(self).participants();
                if count_current(pre) == 0 && open_tasks_seq(old(self).chunks@).len() > 0
                    && count_queued(pre) > 0 {
                    exists|p: int|
                        first_queued_at(pre, p) && is_promotion_of(
                            pre,
                            post,
                            p,
                            open_tasks_seq(old(self).chunks@),
                        )
                } else {
                    post == pre
                }
            }),
    {
        proof {
            crate::registry::lemma_count_queued_zero_iff(self.participants());
        }
        if self.has_current() {
            return ;
        }
        let tasks = self.open_tasks();
        if tasks.len() == 0 {
            return ;
        }
        let ghost pre = self.participants();
        match self.registry.first_queued() {
            Some(p) => {
                proof {
                    assert(queued_at(pre, p as int));
                    assert(pre[p as int].status == ParticipantStatus::Queued);
                    crate::registry::lemma_count_queued_zero_iff(pre);
                    assert(count_queued(pre) > 0);
                }
                self.promote(p);
                proof {
                    assert(first_queued_at(pre, p as int));
                    assert(is_promotion_of(
                        pre,
                        self.participants(),
                        p as int,
                        open_tasks_seq(self.chunks@),
                    ));
                    assert(open_tasks_seq(self.chunks@) == open_tasks_seq(old(self).chunks@));
                    lemma_promotion_preserves(
                        pre,
                        self.participants(),
                        p as int,
                        open_tasks_seq(self.chunks@),
                    );
                }
            },
            None => {
                proof {
                    assert forall|j: int| 0 <= j < pre.len() implies (#[trigger] pre[j]).status
                        != ParticipantStatus::Queued by {
                        assert(!queued_at(pre, j));
                    }
                    crate::registry::lemma_count_queued_zero_iff(pre);
                    assert(count_queued(pre) == 0);
                }
            },
        }
    }

    /// Adds the participant to the tail of the queue.  A participant
    /// joining when nobody holds the round slot and some chunk is open
    /// becomes current immediately.  Duplicates are rejected.
    #[verifier::rlimit(30)]
    /// Adds the participant to the queue.  A new identity joins at the
    /// tail; a previously dropped one rejoins with a clean slate, and
    /// every queued target round is then reconsidered.  A participant
    /// joining when nobody holds the round slot and some chunk is open
    /// becomes current immediately.  Queued, current and finished
    /// duplicates are rejected.
    #[verifier::rlimit(50)]
    pub fn add_to_queue(&mut self, participant: &Participant, now: u64) -> (r: Result<
        (),
        CoordinatorError,
    >)
        requires
            old(self).wf(),
        ensures
            final(self).wf(),
            final(self).same_but_registry(old(self)),
            match r {
                Err(e) => {
                    &&& final(self).participants() == old(self).participants()
                    &&& if contains_id(old(self).participants(), participant.address@) {
                        e == CoordinatorError::AlreadyInQueue && old(
                            self,
                        ).participants()[crate::registry::index_of_id(
                            old(self).participants(),
                            participant.address@,
                        )].status != ParticipantStatus::Dropped
                    } else {
                        e == CoordinatorError::QueueFull && old(self).participants().len()
                            >= crate::registry::MAX_PARTICIPANTS
                    }
                },
                Ok(()) => {
                    let pre = old(self).participants();
                    let post = final(self).participants();
                    let tasks = open_tasks_seq(old(self).chunks@);
                    if !contains_id(pre, participant.address@) {
                        &&& post.len() == pre.len() + 1
                        &&& post.last().id@ == participant.address@
                        &&& post.last().last_heartbeat == now
                        &&& post.last().uploaded_tasks@ == Seq::<Task>::empty()
                        &&& if count_current(pre) > 0 || tasks.len() == 0 {
                            // joins the queue and waits
                            post.last().status == ParticipantStatus::Queued
                                && post.last().pending_tasks@ == Seq::<Task>::empty()
                                && post.last().target_round is None && forall|j: int|
                                0 <= j < pre.len() ==> post[j] == pre[j]
                        } else if count_queued(pre) > 0 {
                            // an earlier joiner is promoted first
                            post.last().status == ParticipantStatus::Queued
                                && post.last().pending_tasks@ == Seq::<Task>::empty() && exists|
                                p: int,
                            |
                                first_queued_at(pre, p) && #[trigger] post[p].status
                                    == ParticipantStatus::Current && post[p].pending_tasks@
                                    == tasks && post[p].id == pre[p].id && forall|j: int|
                                    0 <= j < pre.len() && j != p ==> post[j] == pre[j]
                        } else {
                            // the queue was empty: current immediately
                            post.last().status == ParticipantStatus::Current
                                && post.last().pending_tasks@ == tasks && forall|j: int|
                                0 <= j < pre.len() ==> post[j] == pre[j]
                        }
                    } else {
                        // a dropped identity rejoins with a clean slate
                        let i = crate::registry::index_of_id(pre, participant.address@);
                        &&& pre[i].status == ParticipantStatus::Dropped
                        &&& post.len() == pre.len()
                        &&& forall|j: int|
                            0 <= j < pre.len() ==> (#[trigger] post[j]).id == pre[j].id
                        &&& post[i].last_heartbeat == now
                        &&& post[i].uploaded_tasks@ == Seq::<Task>::empty()
                        &&& (post[i].status == ParticipantStatus::Queued || post[i].status
                            == ParticipantStatus::Current)
                        &&& (post[i].status == ParticipantStatus::Current ==> post[i].pending_tasks@
                            == tasks)
                        &&& (post[i].status == ParticipantStatus::Queued ==> post[i].pending_tasks@
                            == Seq::<Task>::empty())
                        &&& forall|j: int|
                            0 <= j < pre.len() && j != i ==> ((#[trigger] post[j]).status
                                == pre[j].status || (pre[j].status == ParticipantStatus::Queued
                                && post[j].status == ParticipantStatus::Current))
                        // targets are reconsidered: the next maintenance
                        // pass assigns fresh positions
                        &&& forall|j: int|
                            0 <= j < pre.len() && queued_at(post, j) ==> (
                            #[trigger] post[j]).target_round is None
                    }
                },
            },
    {
        let ghost pre = self.participants();
        let n_before = self.registry.participants.len();
        let r = self.registry.add(&participant.address, now);
        match r {
            Err(e) => Err(e),
            Ok(idx) => {
                if idx < n_before {
                    // a rejoin reorders the queue: clear every queued
                    // target so maintenance can reassign them
                    self.registry.clear_queued_targets();
                    let ghost mid = self.participants();
                    proof {
                        assert(contains_id(pre, participant.address@)) by {
                            assert(pre[idx as int].id@ == participant.address@);
                        }
                        crate::registry::lemma_index_of_id_unique(
                            pre,
                            participant.address@,
                            idx as int,
                        );
                        let ps = mid;
                        assert(forall|j: int| 0 <= j < ps.len() ==> ps[j].id == pre[j].id);
                        assert(ids_distinct(ps));
                        let x = ParticipantInfo {
                            status: ParticipantStatus::Queued,
                            ..pre[idx as int]
                        };
                        lemma_count_current_update(pre, idx as int, x);
                        crate::registry::lemma_count_current_pointwise(
                            pre.update(idx as int, x),
                            ps,
                        );
                        assert forall|a: int| 0 <= a < self.locks@.len() implies {
                            let l = #[trigger] self.locks@[a];
                            &&& l.chunk_id < self.n_chunks()
                            &&& l.holder < ps.len()
                            &&& ps[l.holder as int].status == ParticipantStatus::Current
                            &&& l.contribution_id == self.chunks@[l.chunk_id as int].verified_id
                                + 1
                            &&& self.chunks@[l.chunk_id as int].verified_id
                                < CONTRIBUTIONS_PER_ROUND
                        } by {
                            assert(old(self).locks@[a] == self.locks@[a]);
                            assert(ps[self.locks@[a].holder as int].status
                                == pre[self.locks@[a].holder as int].status);
                        }
                        assert forall|j: int|
                            0 <= j < ps.len() && queued_at(ps, j) && (
                            #[trigger] ps[j]).target_round is Some implies ps[j].target_round->0
                            >= self.round_height + 1 + queued_rank(ps, j) by {
                            assert(ps[j].target_round is None);
                        }
                        assert(self.wf());
                    }
                    self.ensure_current_contributor();
                    proof {
                        let post = self.participants();
                        let tasks = open_tasks_seq(old(self).chunks@);
                        let i = idx as int;
                        if count_current(mid) == 0 && tasks.len() > 0 && count_queued(mid) > 0 {
                            let p = choose|p: int|
                                first_queued_at(mid, p) && is_promotion_of(mid, post, p, tasks);
                            assert(post[p].status == ParticipantStatus::Current);
                            assert(post[p].pending_tasks@ == tasks);
                            assert forall|j: int|
                                0 <= j < pre.len() && queued_at(post, j) implies (
                                #[trigger] post[j]).target_round is None by {
                                assert(j != p);
                                assert(post[j] == mid[j]);
                            }
                        } else {
                            assert(post == mid);
                        }
                    }
                    Ok(())
                } else {
                    let ghost mid = self.participants();
                    proof {
                        // the appended record changes no rank and no status
                        // among the old participants
                        assert(forall|j: int| 0 <= j < pre.len() ==> mid[j] == pre[j]);
                        assert forall|j: int|
                            0 <= j < mid.len() && queued_at(mid, j) && (
                            #[trigger] mid[j]).target_round is Some implies mid[j].target_round->0
                            >= self.round_height + 1 + queued_rank(mid, j) by {
                            assert(j < pre.len());
                            assert(mid.take(j) =~= pre.take(j));
                        }
                        assert(self.wf());
                        crate::registry::lemma_count_current_push(pre, mid.last());
                        crate::registry::lemma_count_queued_push(pre, mid.last());
                        assert forall|a: int| 0 <= a < self.locks@.len() implies {
                            let l = #[trigger] self.locks@[a];
                            &&& l.chunk_id < self.n_chunks()
                            &&& l.holder < mid.len()
                            &&& mid[l.holder as int].status == ParticipantStatus::Current
                            &&& l.contribution_id == self.chunks@[l.chunk_id as int].verified_id
                                + 1
                        } by {
                            assert(old(self).locks@[a] == self.locks@[a]);
                        }
                    }
                    self.ensure_current_contributor();
                    proof {
                        let post = self.participants();
                        let tasks = open_tasks_seq(old(self).chunks@);
                        assert(mid =~= pre.push(mid.last()));
                        crate::registry::lemma_count_current_push(pre, mid.last());
                        crate::registry::lemma_count_queued_push(pre, mid.last());
                        assert(count_current(mid) == count_current(pre));
                        assert(count_queued(mid) == count_queued(pre) + 1);
                        if count_current(pre) == 0 && tasks.len() > 0 {
                            assert(exists|p: int|
                                first_queued_at(mid, p) && is_promotion_of(mid, post, p, tasks));
                            let p = choose|p: int|
                                first_queued_at(mid, p) && is_promotion_of(mid, post, p, tasks);
                            if count_queued(pre) > 0 {
                                crate::registry::lemma_count_queued_zero_iff(pre);
                                let w = choose|w: int|
                                    0 <= w < pre.len() && (#[trigger] pre[w]).status
                                        == ParticipantStatus::Queued;
                                assert(queued_at(mid, w));
                                assert(p <= w) by {
                                    if p > w {
                                        assert(!queued_at(mid, w));
                                    }
                                }
                                assert(first_queued_at(pre, p)) by {
                                    assert(queued_at(pre, p));
                                    assert forall|j: int| 0 <= j < p implies !queued_at(pre, j) by {
                                        assert(!queued_at(mid, j));
                                        assert(mid[j] == pre[j]);
                                    }
                                }
                                assert(post[p].status == ParticipantStatus::Current);
                                assert(post[p].pending_tasks@ == tasks);
                                assert(post.last() == mid.last());
                            } else {
                                crate::registry::lemma_count_queued_zero_iff(pre);
                                assert(p == pre.len()) by {
                                    if p < pre.len() {
                                        assert(queued_at(pre, p));
                                    }
                                }
                                assert(post.last().status == ParticipantStatus::Current);
                                assert(post.last().pending_tasks@ == tasks);
                                assert(forall|j: int| 0 <= j < pre.len() ==> post[j] == pre[j]);
                            }
                        } else {
                            assert(post == mid);
                        }
                    }
                    Ok(())
                }
            },
        }
    }

    /// Records that the participant is still alive.
    pub fn heartbeat(&mut self, participant: &Participant, now: u64) -> (r: Result<
        (),
        CoordinatorError,
    >)
        requires
            old(self).wf(),
        ensures
            final(self).wf(),
            final(self).same_but_registry(old(self)),
            match r {
                Err(e) => {
                    &&& e == CoordinatorError::UnknownParticipant
                    &&& !contains_id(old(self).participants(), participant.address@)
                    &&& final(self).participants() == old(self).participants()
                },
                Ok(()) => exists|i: int|
                    {
                        &&& 0 <= i < old(self).participants().len()
                        &&& (#[trigger] old(self).participants()[i]).id@ == participant.address@
                        &&& final(self).participants() == old(self).participants().update(
                            i,
                            ParticipantInfo {
                                last_heartbeat: now,
                                ..old(self).participants()[i]
                            },
                        )
                    },
            },
    {
        let idx = match self.registry.find(&participant.address) {
            Some(i) => i,
            None => {
                return Err(CoordinatorError::UnknownParticipant);
            },
        };
        let ghost pre = self.participants();
        self.registry.set_heartbeat(idx, now);
        proof {
            let post = self.participants();
            let x = ParticipantInfo { last_heartbeat: now, ..pre[idx as int] };
            assert(ids_distinct(post)) by {
                assert(forall|j: int| 0 <= j < pre.len() ==> post[j].id == pre[j].id);
            }
            crate::registry::lemma_count_current_pointwise(pre, post);
            assert forall|j: int|
                0 <= j < post.len() && queued_at(post, j) && (
                #[trigger] post[j]).target_round is Some implies post[j].target_round->0
                >= self.round_height + 1 + queued_rank(post, j) by {
                lemma_rank_update(pre, idx as int, x, j);
                assert(post[j].target_round == pre[j].target_round);
                assert(queued_at(pre, j));
            }
        }
        Ok(())
    }

    /// Everything but the locks is as it was.
    pub open spec fn same_but_locks(&self, other: &Coordinator) -> bool {
        &&& self.contributions_info == other.contributions_info
        &&& self.contributions_summary == other.contributions_summary
        &&& self.round_height == other.round_height
        &&& self.chunks == other.chunks
        &&& self.registry == other.registry
        &&& self.storage == other.storage
        &&& self.verifier == other.verifier
        &&& self.heartbeat_timeout == other.heartbeat_timeout
        &&& self.lock_timeout == other.lock_timeout
        &&& self.shut_down == other.shut_down
    }

    /// What `try_lock` decides on the given caller, before any change:
    /// the task whose chunk will be locked, or the failure owed.
    pub open spec fn try_lock_outcome(&self, addr: Seq<char>) -> Result<Task, CoordinatorError> {
        let ps = self.participants();
        if !contains_id(ps, addr) {
            Err(CoordinatorError::UnknownParticipant)
        } else {
            let i = crate::registry::index_of_id(ps, addr);
            if ps[i].status != ParticipantStatus::Current {
                Err(CoordinatorError::NotCurrentParticipant)
            } else if ps[i].pending_tasks@.len() == 0 {
                Err(CoordinatorError::NoPendingTask)
            } else {
                let t = ps[i].pending_tasks@[0];
                if t.chunk_id >= self.n_chunks() || t.contribution_id
                    != self.chunks@[t.chunk_id as int].verified_id + 1 {
                    Err(CoordinatorError::WrongLocator)
                } else if self.chunks@[t.chunk_id as int].verified_id
                    >= CONTRIBUTIONS_PER_ROUND {
                    Err(CoordinatorError::ContributionAlreadyVerified)
                } else if !(self.chunks@[t.chunk_id as int].pending is Empty) {
                    Err(CoordinatorError::ContributionAlreadyWritten)
                } else if self.is_locked_spec(t.chunk_id) {
                    Err(CoordinatorError::ChunkLocked)
                } else {
                    Ok(t)
                }
            }
        }
    }

    /// Locks the chunk of the caller's next task.  This succeeds only
    /// for the current participant, on an open, unlocked chunk, and
    /// hands back the locator to read the challenge from and the
    /// locator to write the new contribution to.
    pub fn try_lock(&mut self, participant: &Participant, now: u64) -> (r: Result<
        LockedLocators,
        CoordinatorError,
    >)
        requires
            old(self).wf(),
        ensures
            final(self).wf(),
            final(self).same_but_locks(old(self)),
            match r {
                Err(e) => *final(self) == *old(self) && old(self).try_lock_outcome(
                    participant.address@,
                ) == Err::<Task, CoordinatorError>(e),
                Ok(ll) => {
                    let t = old(self).try_lock_outcome(participant.address@)->Ok_0;
                    let i = crate::registry::index_of_id(
                        old(self).participants(),
                        participant.address@,
                    );
                    &&& old(self).try_lock_outcome(participant.address@) is Ok
                    &&& ll.current_contribution == (ContributionLocator {
                        round_height: old(self).round_height,
                        chunk_id: t.chunk_id,
                        contribution_id: (t.contribution_id - 1) as u64,
                        is_verified: true,
                    })
                    &&& ll.next_contribution == (ContributionLocator {
                        round_height: old(self).round_height,
                        chunk_id: t.chunk_id,
                        contribution_id: t.contribution_id,
                        is_verified: false,
                    })
                    &&& final(self).locks@ == old(self).locks@.push(
                        Lock {
                            chunk_id: t.chunk_id,
                            holder: i as usize,
                            contribution_id: t.contribution_id,
                            acquired_at: now,
                        },
                    )
                },
            },
    {
        let i = match self.registry.find(&participant.address) {
            Some(i) => i,
            None => {
                return Err(CoordinatorError::UnknownParticipant);
            },
        };
        proof {
            crate::registry::lemma_index_of_id_unique(
                self.participants(),
                participant.address@,
                i as int,
            );
        }
        if !matches!(self.registry.participants[i].status, ParticipantStatus::Current) {
            return Err(CoordinatorError::NotCurrentParticipant);
        }
        if self.registry.participants[i].pending_tasks.len() == 0 {
            return Err(CoordinatorError::NoPendingTask);
        }
        let t = self.registry.participants[i].pending_tasks[0];
        let c = t.chunk_id;
        if c >= self.chunks.len() as u64 {
            return Err(CoordinatorError::WrongLocator);
        }
        let cu = c as usize;
        if t.contribution_id != self.chunks[cu].verified_id + 1 {
            return Err(CoordinatorError::WrongLocator);
        }
        if self.chunks[cu].verified_id >= CONTRIBUTIONS_PER_ROUND {
            return Err(CoordinatorError::ContributionAlreadyVerified);
        }
        if !matches!(self.chunks[cu].pending, PendingContribution::Empty) {
            return Err(CoordinatorError::ContributionAlreadyWritten);
        }
        if self.find_lock(c).is_some() {
            return Err(CoordinatorError::ChunkLocked);
        }
        let ghost pre_locks = self.locks@;
        self.locks.push(
            Lock { chunk_id: c, holder: i, contribution_id: t.contribution_id, acquired_at: now },
        );
        proof {
            assert forall|a: int, b: int| 0 <= a < b < self.locks@.len() implies (
            #[trigger] self.locks@[a]).chunk_id != (#[trigger] self.locks@[b]).chunk_id by {
                if b == self.locks@.len() - 1 {
                    assert(pre_locks[a].chunk_id != c);
                }
            }
        }
        Ok(
            LockedLocators {
                current_contribution: ContributionLocator {
                    round_height: self.round_height,
                    chunk_id: c,
                    contribution_id: t.contribution_id - 1,
                    is_verified: true,
                },
                next_contribution: ContributionLocator {
                    round_height: self.round_height,
                    chunk_id: c,
                    contribution_id: t.contribution_id,
                    is_verified: false,
                },
            },
        )
    }

    /// What `write_contribution` decides on the given caller and
    /// locator, before any change.
    pub open spec fn write_contribution_outcome(
        &self,
        addr: Seq<char>,
        locator: ContributionLocator,
    ) -> Result<(), CoordinatorError> {
        let ps = self.participants();
        if !contains_id(ps, addr) {
            Err(CoordinatorError::UnknownParticipant)
        } else {
            let i = crate::registry::index_of_id(ps, addr);
            if ps[i].status != ParticipantStatus::Current {
                Err(CoordinatorError::NotCurrentParticipant)
            } else if locator.round_height != self.round_height || locator.is_verified
                || locator.chunk_id >= self.n_chunks() {
                Err(CoordinatorError::WrongLocator)
            } else {
                let ch = self.chunks@[locator.chunk_id as int];
                if locator.contribution_id <= ch.verified_id || ch.verified_id
                    >= CONTRIBUTIONS_PER_ROUND {
                    Err(CoordinatorError::ContributionAlreadyVerified)
                } else if locator.contribution_id != ch.verified_id + 1 {
                    Err(CoordinatorError::WrongLocator)
                } else if !(ch.pending is Empty) {
                    Err(CoordinatorError::ContributionAlreadyWritten)
                } else if ps[i].pending_tasks@.len() == 0 || ps[i].pending_tasks@[0] != (Task {
                    chunk_id: locator.chunk_id,
                    contribution_id: locator.contribution_id,
                }) {
                    Err(CoordinatorError::TaskNotPending)
                } else if !self.is_locked_spec(locator.chunk_id) {
                    Err(CoordinatorError::ChunkNotLocked)
                } else if !self.locked_by_spec(locator.chunk_id, i) {
                    Err(CoordinatorError::NotLockHolder)
                } else {
                    Ok(())
                }
            }
        }
    }

    /// Persists the bytes of the caller's contribution at the given
    /// locator.  Requires the caller to hold the chunk's lock and the
    /// locator to name exactly the contribution the caller was asked
    /// to produce; re-sending a slot already written or already
    /// verified is a state conflict, never a silent overwrite.  The
    /// lock stays held: the detached signature must still be recorded.
    pub fn write_contribution(
        &mut self,
        participant: &Participant,
        locator: ContributionLocator,
        contribution: Vec<u8>,
    ) -> (r: Result<(), CoordinatorError>)
        requires
            old(self).wf(),
        ensures
            final(self).wf(),
            final(self).round_height == old(self).round_height,
            final(self).locks == old(self).locks,
            final(self).registry == old(self).registry,
            final(self).verifier == old(self).verifier,
            final(self).heartbeat_timeout == old(self).heartbeat_timeout,
            final(self).lock_timeout == old(self).lock_timeout,
            final(self).shut_down == old(self).shut_down,
            match r {
                Err(e) => *final(self) == *old(self) && old(self).write_contribution_outcome(
                    participant.address@,
                    locator,
                ) == Err::<(), CoordinatorError>(e),
                Ok(()) => {
                    let i = crate::registry::index_of_id(
                        old(self).participants(),
                        participant.address@,
                    );
                    let c = locator.chunk_id as int;
                    let ch = final(self).chunks@[c];
                    &&& old(self).write_contribution_outcome(participant.address@, locator) is Ok
                    &&& final(self).storage.get_spec(
                        crate::storage::Locator::ContributionFile(locator),
                    ) == Some(contribution@)
                    &&& forall|l: crate::storage::Locator|
                        l != crate::storage::Locator::ContributionFile(locator) ==> final(self).storage.get_spec(l) == old(self).storage.get_spec(l)
                    &&& final(self).chunks@.len() == old(self).chunks@.len()
                    &&& forall|k: int|
                        0 <= k < old(self).chunks@.len() && k != c ==> final(self).chunks@[k]
                            == old(self).chunks@[k]
                    &&& ch.verified_id == old(self).chunks@[c].verified_id
                    &&& ch.last_verified_digest == old(self).chunks@[c].last_verified_digest
                    &&& ch.history == old(self).chunks@[c].history
                    &&& ch.pending matches PendingContribution::Written {
                        contributor,
                        contribution_id,
                        digest,
                    } && contributor == i && contribution_id == locator.contribution_id && digest@
                        == blake2b_of(contribution@)
                },
            },
    {
        let i = match self.registry.find(&participant.address) {
            Some(i) => i,
            None => {
                return Err(CoordinatorError::UnknownParticipant);
            },
        };
        proof {
            crate::registry::lemma_index_of_id_unique(
                self.participants(),
                participant.address@,
                i as int,
            );
        }
        if !matches!(self.registry.participants[i].status, ParticipantStatus::Current) {
            return Err(CoordinatorError::NotCurrentParticipant);
        }
        if locator.round_height != self.round_height || locator.is_verified || locator.chunk_id
            >= self.chunks.len() as u64 {
            return Err(CoordinatorError::WrongLocator);
        }
        let cu = locator.chunk_id as usize;
        if locator.contribution_id <= self.chunks[cu].verified_id || self.chunks[cu].verified_id
            >= CONTRIBUTIONS_PER_ROUND {
            return Err(CoordinatorError::ContributionAlreadyVerified);
        }
        if locator.contribution_id != self.chunks[cu].verified_id + 1 {
            return Err(CoordinatorError::WrongLocator);
        }
        if !matches!(self.chunks[cu].pending, PendingContribution::Empty) {
            return Err(CoordinatorError::ContributionAlreadyWritten);
        }
        let head_ok = self.registry.participants[i].pending_tasks.len() > 0
            && self.registry.participants[i].pending_tasks[0] == Task::new(
            locator.chunk_id,
            locator.contribution_id,
        );
        if !head_ok {
            return Err(CoordinatorError::TaskNotPending);
        }
        match self.find_lock(locator.chunk_id) {
            None => {
                return Err(CoordinatorError::ChunkNotLocked);
            },
            Some(a) => {
                if self.locks[a].holder != i {
                    proof {
                        assert(!self.locked_by_spec(locator.chunk_id, i as int)) by {
                            if self.locked_by_spec(locator.chunk_id, i as int) {
                                let b = choose|b: int|
                                    0 <= b < self.locks@.len() && (
                                    #[trigger] self.locks@[b]).chunk_id == locator.chunk_id
                                        && self.locks@[b].holder == i as int;
                                assert(b == a);
                            }
                        }
                    }
                    return Err(CoordinatorError::NotLockHolder);
                }
            },
        }
        let digest = blake2b_digest(contribution.as_slice());
        let ghost pre = *self;
        self.storage.write(
            crate::storage::Locator::ContributionFile(locator),
            contribution,
        );
        let ch = vstd::std_specs::vec::vec_index_mut(&mut self.chunks, cu);
        ch.pending = PendingContribution::Written {
            contributor: i,
            contribution_id: locator.contribution_id,
            digest,
        };
        proof {
            assert forall|k: int|
                0 <= k < self.chunks@.len() implies chunk_wf(
                #[trigger] self.chunks@[k],
                self.participants().len(),
            ) by {
                if k != cu as int {
                    assert(self.chunks@[k] == pre.chunks@[k]);
                }
            }
            assert forall|a: int| 0 <= a < self.locks@.len() implies {
                let l = #[trigger] self.locks@[a];
                &&& l.chunk_id < self.n_chunks()
                &&& l.holder < self.participants().len()
                &&& self.participants()[l.holder as int].status == ParticipantStatus::Current
                &&& l.contribution_id == self.chunks@[l.chunk_id as int].verified_id + 1
            } by {
                assert(pre.locks@[a] == self.locks@[a]);
                assert(self.chunks@[self.locks@[a].chunk_id as int].verified_id
                    == pre.chunks@[self.locks@[a].chunk_id as int].verified_id);
            }
        }
        Ok(())
    }

    /// What `write_contribution_file_signature` decides on the given
    /// caller and locator, before any change.
    pub open spec fn write_signature_outcome(
        &self,
        addr: Seq<char>,
        locator: crate::objects::ContributionSignatureLocator,
    ) -> Result<(), CoordinatorError> {
        let ps = self.participants();
        if !contains_id(ps, addr) {
            Err(CoordinatorError::UnknownParticipant)
        } else {
            let i = crate::registry::index_of_id(ps, addr);
            if locator.round_height != self.round_height || locator.is_verified || locator.chunk_id
                >= self.n_chunks() {
                Err(CoordinatorError::WrongLocator)
            } else {
                match self.chunks@[locator.chunk_id as int].pending {
                    PendingContribution::Written { contributor, contribution_id, .. } => {
                        if contributor != i {
                            Err(CoordinatorError::NotLockHolder)
                        } else if contribution_id != locator.contribution_id {
                            Err(CoordinatorError::SignatureMismatch)
                        } else if ps[i].pending_tasks@.len() == 0 || ps[i].pending_tasks@[0] != (
                        Task { chunk_id: locator.chunk_id, contribution_id }) {
                            Err(CoordinatorError::TaskNotPending)
                        } else {
                            Ok(())
                        }
                    },
                    _ => Err(CoordinatorError::ContributionMissing),
                }
            }
        }
    }

    /// Persists the detached signature for a contribution already
    /// written.  On success the slot transitions to awaiting
    /// verification, the chunk's lock is released, and the task leaves
    /// the caller's pending list so it may proceed to its next task.
    #[verifier::rlimit(50)]
    pub fn write_contribution_file_signature(
        &mut self,
        participant: &Participant,
        locator: crate::objects::ContributionSignatureLocator,
        signature: crate::objects::ContributionFileSignature,
    ) -> (r: Result<(), CoordinatorError>)
        requires
            old(self).wf(),
        ensures
            final(self).wf(),
            final(self).round_height == old(self).round_height,
            final(self).verifier == old(self).verifier,
            final(self).heartbeat_timeout == old(self).heartbeat_timeout,
            final(self).lock_timeout == old(self).lock_timeout,
            final(self).shut_down == old(self).shut_down,
            match r {
                Err(e) => *final(self) == *old(self) && old(self).write_signature_outcome(
                    participant.address@,
                    locator,
                ) == Err::<(), CoordinatorError>(e),
                Ok(()) => {
                    let i = crate::registry::index_of_id(
                        old(self).participants(),
                        participant.address@,
                    );
                    let c = locator.chunk_id as int;
                    let pre_ch = old(self).chunks@[c];
                    let ch = final(self).chunks@[c];
                    let t = Task {
                        chunk_id: locator.chunk_id,
                        contribution_id: locator.contribution_id,
                    };
                    &&& old(self).write_signature_outcome(participant.address@, locator) is Ok
                    // the signature bytes are stored under their locator
                    &&& final(self).storage.get_spec(
                        crate::storage::Locator::ContributionFileSignature(locator),
                    ) == Some(signature.signature@)
                    &&& forall|l: crate::storage::Locator|
                        l != crate::storage::Locator::ContributionFileSignature(locator) ==> final(self).storage.get_spec(l) == old(self).storage.get_spec(l)
                    // the slot now awaits verification, with the digest
                    // recorded at upload time carried over
                    &&& final(self).chunks@.len() == old(self).chunks@.len()
                    &&& forall|k: int|
                        0 <= k < old(self).chunks@.len() && k != c ==> final(self).chunks@[k]
                            == old(self).chunks@[k]
                    &&& ch.verified_id == pre_ch.verified_id
                    &&& ch.last_verified_digest == pre_ch.last_verified_digest
                    &&& ch.history == pre_ch.history
                    &&& ch.pending matches PendingContribution::Awaiting {
                        contributor,
                        contribution_id,
                        digest,
                    } && contributor == i && contribution_id == locator.contribution_id && (
                    pre_ch.pending matches PendingContribution::Written {
                        contributor: c0,
                        contribution_id: k0,
                        digest: d0,
                    } && c0 == contributor && k0 == contribution_id && d0@ == digest@)
                    // the chunk's lock is gone
                    &&& !final(self).is_locked_spec(locator.chunk_id)
                    &&& forall|c2: u64|
                        c2 != locator.chunk_id ==> final(self).is_locked_spec(c2) == old(self).is_locked_spec(c2)
                    // the task moves from pending to uploaded
                    &&& final(self).participants().len() == old(self).participants().len()
                    &&& forall|j: int|
                        0 <= j < old(self).participants().len() && j != i ==> final(self).participants()[j] == old(self).participants()[j]
                    &&& final(self).participants()[i].status == old(self).participants()[i].status
                    &&& final(self).participants()[i].id == old(self).participants()[i].id
                    &&& final(self).participants()[i].last_heartbeat == old(self).participants()[i].last_heartbeat
                    &&& final(self).participants()[i].target_round == old(self).participants()[i].target_round
                    &&& final(self).participants()[i].pending_tasks@ == old(self).participants()[i].pending_tasks@.drop_first()
                    &&& final(self).participants()[i].uploaded_tasks@ == old(self).participants()[i].uploaded_tasks@.push(t)
                },
            },
    {
        let i = match self.registry.find(&participant.address) {
            Some(i) => i,
            None => {
                return Err(CoordinatorError::UnknownParticipant);
            },
        };
        proof {
            crate::registry::lemma_index_of_id_unique(
                self.participants(),
                participant.address@,
                i as int,
            );
        }
        if locator.round_height != self.round_height || locator.is_verified || locator.chunk_id
            >= self.chunks.len() as u64 {
            return Err(CoordinatorError::WrongLocator);
        }
        let cu = locator.chunk_id as usize;
        let (w_contributor, w_contribution_id) = match &self.chunks[cu].pending {
            PendingContribution::Written { contributor, contribution_id, .. } => (
                *contributor,
                *contribution_id,
            ),
            _ => {
                return Err(CoordinatorError::ContributionMissing);
            },
        };
        if w_contributor != i {
            return Err(CoordinatorError::NotLockHolder);
        }
        if w_contribution_id != locator.contribution_id {
            return Err(CoordinatorError::SignatureMismatch);
        }
        let head_ok = self.registry.participants[i].pending_tasks.len() > 0
            && self.registry.participants[i].pending_tasks[0] == Task::new(
            locator.chunk_id,
            locator.contribution_id,
        );
        if !head_ok {
            return Err(CoordinatorError::TaskNotPending);
        }
        let ghost pre = *self;
        // store the detached signature
        self.storage.write(
            crate::storage::Locator::ContributionFileSignature(locator),
            signature.signature,
        );
        // the slot now awaits verification
        let digest = match &self.chunks[cu].pending {
            PendingContribution::Written { digest, .. } => clone_bytes(digest),
            _ => Vec::new(),
        };
        let ch = vstd::std_specs::vec::vec_index_mut(&mut self.chunks, cu);
        ch.pending = PendingContribution::Awaiting {
            contributor: i,
            contribution_id: locator.contribution_id,
            digest,
        };
        let ghost mid = *self;
        // release the chunk's lock
        self.release_lock_on(locator.chunk_id);
        let ghost mid2 = *self;
        // the task leaves the caller's pending list
        self.registry.pop_pending_task(i);
        self.registry.push_uploaded_task(
            i,
            Task::new(locator.chunk_id, locator.contribution_id),
        );
        proof {
            let ps = self.participants();
            let pre_ps = pre.participants();
            assert(forall|j: int| 0 <= j < ps.len() && j != i ==> ps[j] == pre_ps[j]);
            assert(ids_distinct(ps)) by {
                assert(forall|j: int| 0 <= j < ps.len() ==> ps[j].id == pre_ps[j].id);
            }
            crate::registry::lemma_count_current_pointwise(pre_ps, ps);
            // chunk well-formedness: the digest moved from the written
            // record to the awaiting one, ids unchanged
            assert forall|k: int|
                0 <= k < self.chunks@.len() implies chunk_wf(#[trigger] self.chunks@[k], ps.len())
                by {
                if k != cu as int {
                    assert(self.chunks@[k] == pre.chunks@[k]);
                }
            }
            // remaining locks are still valid: they were valid before
            // and neither chunk ids nor statuses changed
            assert forall|a: int| 0 <= a < self.locks@.len() implies {
                let l = #[trigger] self.locks@[a];
                &&& l.chunk_id < self.n_chunks()
                &&& l.holder < ps.len()
                &&& ps[l.holder as int].status == ParticipantStatus::Current
                &&& l.contribution_id == self.chunks@[l.chunk_id as int].verified_id + 1
            } by {
                if mid.is_locked_spec(locator.chunk_id) {
                    let rem = choose|b: int|
                        0 <= b < mid.locks@.len() && (#[trigger] mid.locks@[b]).chunk_id
                            == locator.chunk_id && self.locks@ == mid.locks@.remove(b);
                    if a < rem {
                        assert(self.locks@[a] == mid.locks@[a]);
                    } else {
                        assert(self.locks@[a] == mid.locks@[a + 1]);
                    }
                } else {
                    assert(self.locks@[a] == mid.locks@[a]);
                }
                assert(ps[self.locks@[a].holder as int].status
                    == pre_ps[self.locks@[a].holder as int].status);
            }
            // lock distinctness survives removal
            assert forall|a: int, b: int| 0 <= a < b < self.locks@.len() implies (
            #[trigger] self.locks@[a]).chunk_id != (#[trigger] self.locks@[b]).chunk_id by {
                if mid.is_locked_spec(locator.chunk_id) {
                    let rem = choose|w: int|
                        0 <= w < mid.locks@.len() && (#[trigger] mid.locks@[w]).chunk_id
                            == locator.chunk_id && self.locks@ == mid.locks@.remove(w);
                    assert(self.locks@[a] == if a < rem {
                        mid.locks@[a]
                    } else {
                        mid.locks@[a + 1]
                    });
                    assert(self.locks@[b] == if b < rem {
                        mid.locks@[b]
                    } else {
                        mid.locks@[b + 1]
                    });
                } else {
                    assert(self.locks@[a] == mid.locks@[a] && self.locks@[b] == mid.locks@[b]);
                }
            }
            // targets: statuses and ranks unchanged
            assert forall|j: int|
                0 <= j < ps.len() && queued_at(ps, j) && (#[trigger] ps[j]).target_round is Some
                implies ps[j].target_round->0 >= self.round_height + 1 + queued_rank(ps, j) by {
                assert(ps[j].status == pre_ps[j].status);
                assert(queued_at(pre_ps, j));
                assert(ps[j].target_round == pre_ps[j].target_round);
                crate::registry::lemma_count_queued_pointwise(ps.take(j), pre_ps.take(j));
            }
            // the chunk's lock is gone and other chunks kept theirs
            assert(!self.is_locked_spec(locator.chunk_id)) by {
                assert(self.locks@ == mid2.locks@);
                if self.is_locked_spec(locator.chunk_id) {
                    let b = choose|b: int|
                        0 <= b < self.locks@.len() && (#[trigger] self.locks@[b]).chunk_id
                            == locator.chunk_id;
                    assert(mid2.locks@[b].chunk_id == locator.chunk_id);
                }
            }
            assert forall|c2: u64| c2 != locator.chunk_id implies self.is_locked_spec(c2) == pre
                .is_locked_spec(c2) by {
                if mid.is_locked_spec(c2) {
                    let b = choose|b: int|
                        0 <= b < mid.locks@.len() && (#[trigger] mid.locks@[b]).chunk_id == c2;
                    if mid.is_locked_spec(locator.chunk_id) {
                        let rem = choose|w: int|
                            0 <= w < mid.locks@.len() && (#[trigger] mid.locks@[w]).chunk_id
                                == locator.chunk_id && self.locks@ == mid.locks@.remove(w);
                        if b < rem {
                            assert(self.locks@[b].chunk_id == c2);
                        } else {
                            assert(b != rem);
                            assert(self.locks@[b - 1].chunk_id == c2);
                        }
                    } else {
                        assert(self.locks@[b].chunk_id == c2);
                    }
                    assert(self.is_locked_spec(c2));
                }
                if self.is_locked_spec(c2) {
                    let b = choose|b: int|
                        0 <= b < self.locks@.len() && (#[trigger] self.locks@[b]).chunk_id == c2;
                    if mid.is_locked_spec(locator.chunk_id) {
                        let rem = choose|w: int|
                            0 <= w < mid.locks@.len() && (#[trigger] mid.locks@[w]).chunk_id
                                == locator.chunk_id && self.locks@ == mid.locks@.remove(w);
                        if b < rem {
                            assert(mid.locks@[b].chunk_id == c2);
                        } else {
                            assert(mid.locks@[b + 1].chunk_id == c2);
                        }
                    } else {
                        assert(mid.locks@[b].chunk_id == c2);
                    }
                    assert(mid.is_locked_spec(c2));
                }
                assert(mid.locks@ == pre.locks@);
            }
        }
        Ok(())
    }

    /// Whether every chunk has a verified contribution at the round's
    /// expected contribution id: the round-completion condition.
    pub open spec fn round_complete_spec(&self) -> bool {
        forall|c: int|
            0 <= c < self.n_chunks() ==> (#[trigger] self.chunks@[c]).verified_id
                >= CONTRIBUTIONS_PER_ROUND
    }

    /// Whether every chunk has a verified contribution at the round's
    /// expected contribution id.
    pub fn is_round_complete(&self) -> (r: bool)
        ensures
            r == self.round_complete_spec(),
    {
        let n = self.chunks.len();
        let mut c: usize = 0;
        while c < n
            invariant
                c <= n,
                n == self.chunks@.len(),
                forall|k: int|
                    0 <= k < c ==> (#[trigger] self.chunks@[k]).verified_id
                        >= CONTRIBUTIONS_PER_ROUND,
            decreases n - c,
        {
            if self.chunks[c].verified_id < CONTRIBUTIONS_PER_ROUND {
                return false;
            }
            c = c + 1;
        }
        true
    }

    /// What `default_verify` decides on the given caller, task and
    /// collaborator verdict, before any change.
    pub open spec fn verify_outcome(
        &self,
        addr: Seq<char>,
        task: Task,
        transformation_valid: bool,
    ) -> Result<(), CoordinatorError> {
        if addr != self.verifier@ {
            Err(CoordinatorError::UnauthorizedVerifier)
        } else if task.chunk_id >= self.n_chunks() {
            Err(CoordinatorError::StaleVerification)
        } else {
            match self.chunks@[task.chunk_id as int].pending {
                PendingContribution::Awaiting { contribution_id, digest, .. } => {
                    if contribution_id != task.contribution_id {
                        Err(CoordinatorError::StaleVerification)
                    } else {
                        let cloc = crate::storage::Locator::ContributionFile(
                            ContributionLocator {
                                round_height: self.round_height,
                                chunk_id: task.chunk_id,
                                contribution_id: task.contribution_id,
                                is_verified: false,
                            },
                        );
                        let sloc = crate::storage::Locator::ContributionFileSignature(
                            crate::objects::ContributionSignatureLocator {
                                round_height: self.round_height,
                                chunk_id: task.chunk_id,
                                contribution_id: task.contribution_id,
                                is_verified: false,
                            },
                        );
                        match self.storage.get_spec(cloc) {
                            Option::None => Err(CoordinatorError::StorageObjectMissing),
                            Option::Some(bytes) => {
                                if self.storage.get_spec(sloc) is None {
                                    Err(CoordinatorError::StorageObjectMissing)
                                } else if blake2b_of(bytes) != digest@ {
                                    Err(CoordinatorError::DigestMismatch)
                                } else if !transformation_valid {
                                    Err(CoordinatorError::TransformationRejected)
                                } else {
                                    Ok(())
                                }
                            },
                        }
                    }
                },
                _ => Err(CoordinatorError::StaleVerification),
            }
        }
    }

    /// Records the awaiting contribution of chunk `cu` as verified:
    /// releases any stray lock on the chunk, advances its verified id
    /// to `k`, records the recomputed digest, removes the task from
    /// the contributor's uploaded list and finishes the contributor if
    /// nothing is left.
    #[verifier::rlimit(100)]
    #[verifier::spinoff_prover]
    fn bump_verified(&mut self, cu: usize, p: usize, k: u64, recomputed: Vec<u8>)
        requires
            old(self).wf(),
            cu < old(self).chunks@.len(),
            p < old(self).participants().len(),
            old(self).chunks@[cu as int].pending matches PendingContribution::Awaiting {
                contributor,
                contribution_id,
                ..
            } && contributor == p && contribution_id == k,
        ensures
            final(self).wf(),
            final(self).storage == old(self).storage,
            is_bump_of(*old(self), *final(self), cu as int, p as int, k, recomputed@),
    {
        let ghost pre = *self;
        self.release_lock_on(cu as u64);
        let ghost post_release = *self;
        let ch = vstd::std_specs::vec::vec_index_mut(&mut self.chunks, cu);
        ch.verified_id = k;
        ch.pending = PendingContribution::Empty;
        ch.last_verified_digest = recomputed;
        ch.history = Ghost(ch.history@.push(k));
        proof {
            assert(final(ch).history@ =~= Seq::new(k as nat, |i: int| (i + 1) as u64));
        }
        self.registry.remove_uploaded_task(p, Task::new(cu as u64, k));
        proof {
            let ps = self.participants();
            let pre_ps = pre.participants();
            assert(ids_distinct(ps)) by {
                assert(forall|j: int| 0 <= j < ps.len() ==> ps[j].id == pre_ps[j].id);
            }
            crate::registry::lemma_count_current_pointwise(pre_ps, ps);
            assert forall|j: int|
                0 <= j < self.chunks@.len() implies chunk_wf(#[trigger] self.chunks@[j], ps.len())
                by {
                if j != cu as int {
                    assert(self.chunks@[j] == pre.chunks@[j]);
                }
            }
            lemma_release_step(pre.locks@, self.locks@, cu as u64);
            assert forall|a: int| 0 <= a < self.locks@.len() implies {
                let l = #[trigger] self.locks@[a];
                &&& l.chunk_id < self.n_chunks()
                &&& l.holder < ps.len()
                &&& ps[l.holder as int].status == ParticipantStatus::Current
                &&& l.contribution_id == self.chunks@[l.chunk_id as int].verified_id + 1
            } by {
                assert(lock_from(pre.locks@, self.locks@[a]));
                let a2 = choose|a2: int|
                    0 <= a2 < pre.locks@.len() && self.locks@[a] == #[trigger] pre.locks@[a2];
                assert(self.locks@[a].chunk_id != cu as u64) by {
                    if self.locks@[a].chunk_id == cu as u64 {
                        assert(post_release.locks@[a].chunk_id == cu as u64);
                        assert(post_release.is_locked_spec(cu as u64));
                    }
                }
                assert(ps[self.locks@[a].holder as int].status
                    == pre_ps[self.locks@[a].holder as int].status);
            }
            assert forall|c2: u64| c2 != cu as u64 implies self.is_locked_spec(c2)
                == pre.is_locked_spec(c2) by {
                assert(self.locks@ == post_release.locks@);
                assert(post_release.is_locked_spec(c2) == pre.is_locked_spec(c2));
            }
            assert forall|j: int|
                0 <= j < ps.len() && queued_at(ps, j) && (#[trigger] ps[j]).target_round is Some
                implies ps[j].target_round->0 >= self.round_height + 1 + queued_rank(ps, j) by {
                assert(ps[j].status == pre_ps[j].status);
                assert(queued_at(pre_ps, j));
                assert(ps[j].target_round == pre_ps[j].target_round);
                crate::registry::lemma_count_queued_pointwise(ps.take(j), pre_ps.take(j));
            }
            assert(self.wf());
        }
        self.maybe_finish(p);
    }

    /// Runs the round-completion check: advances the round and hands
    /// out the next round's tasks exactly when every chunk holds a
    /// verified contribution at the expected id.
    #[verifier::rlimit(100)]
    #[verifier::spinoff_prover]
    fn complete_round_if_due(&mut self)
        requires
            old(self).wf(),
        ensures
            final(self).wf(),
            is_completion_of(*old(self), *final(self)),
            final(self).participants().len() == old(self).participants().len(),
            forall|j: int|
                0 <= j < old(self).participants().len() ==> {
                    let pre_j = old(self).participants()[j];
                    let post_j = #[trigger] final(self).participants()[j];
                    &&& post_j.id == pre_j.id
                    &&& post_j.last_heartbeat == pre_j.last_heartbeat
                    &&& (post_j.status == pre_j.status || (pre_j.status
                        == ParticipantStatus::Queued && post_j.status
                        == ParticipantStatus::Current))
                },
            // a held lock keeps the round from completing, so it stays
            forall|a: int|
                0 <= a < old(self).locks@.len() ==> lock_from(
                    final(self).locks@,
                    #[trigger] old(self).locks@[a],
                ),
    {
        proof {
            assert forall|a: int| 0 <= a < old(self).locks@.len() implies lock_from(
                old(self).locks@,
                #[trigger] old(self).locks@[a],
            ) by {
                assert(old(self).locks@[a] == old(self).locks@[a]);
            }
        }
        if self.is_round_complete() && self.round_height < MAX_ROUND_HEIGHT {
            let ghost mid = *self;
            self.advance_round();
            proof {
                assert(self.participants() =~= with_cleared_targets(mid.participants()));
                crate::registry::lemma_count_current_pointwise(
                    mid.participants(),
                    self.participants(),
                );
                crate::registry::lemma_count_queued_pointwise(
                    mid.participants(),
                    self.participants(),
                );
            }
            self.ensure_current_contributor();
            proof {
                assert(is_completion_of(mid, *self)) by {
                    let cleared = with_cleared_targets(mid.participants());
                    crate::registry::lemma_count_current_pointwise(mid.participants(), cleared);
                    crate::registry::lemma_count_queued_pointwise(mid.participants(), cleared);
                }
                lemma_completion_preserves(mid, *self);
                // no lock can exist when the round completed: a locked
                // chunk is never fully verified
                assert forall|a: int| 0 <= a < old(self).locks@.len() implies lock_from(
                    self.locks@,
                    #[trigger] old(self).locks@[a],
                ) by {
                    let l = old(self).locks@[a];
                    assert(old(self).chunks@[l.chunk_id as int].verified_id
                        < CONTRIBUTIONS_PER_ROUND);
                    assert(old(self).chunks@[l.chunk_id as int].verified_id
                        >= CONTRIBUTIONS_PER_ROUND);
                }
            }
        }
    }

    /// Verifies the awaiting contribution named by `task`, as the
    /// coordinator's own verifier.  `transformation_valid` is the
    /// verdict of the external cryptographic collaborator on the stored
    /// bytes, and `next_challenge` the transcript it produced.  The
    /// coordinator recomputes the stored contribution's digest and
    /// compares it with the digest recorded at upload; on any mismatch
    /// the slot is rejected and may be retried.  On success the chunk's
    /// verified id advances by exactly one, the produced challenge is
    /// stored and copied forward to the next round, their digests are
    /// compared, and — if the round is now complete — the next round
    /// begins and its tasks are handed out.
    #[verifier::rlimit(100)]
    #[verifier::spinoff_prover]
    pub fn default_verify(
        &mut self,
        participant: &Participant,
        task: &Task,
        transformation_valid: bool,
        next_challenge: Vec<u8>,
    ) -> (r: Result<(), CoordinatorError>)
        requires
            old(self).wf(),
        ensures
            final(self).wf(),
            final(self).verifier == old(self).verifier,
            final(self).heartbeat_timeout == old(self).heartbeat_timeout,
            final(self).lock_timeout == old(self).lock_timeout,
            final(self).shut_down == old(self).shut_down,
            match r {
                Err(e) => {
                    &&& old(self).verify_outcome(participant.address@, *task, transformation_valid)
                        == Err::<(), CoordinatorError>(e)
                    &&& if e == CoordinatorError::DigestMismatch || e
                        == CoordinatorError::TransformationRejected {
                        old(self).chunks@[task.chunk_id as int].pending matches PendingContribution::Awaiting {
                            contributor,
                            ..
                        } && is_rejection_of(
                            *old(self),
                            *final(self),
                            task.chunk_id as int,
                            contributor as int,
                            task.contribution_id,
                        )
                    } else {
                        *final(self) == *old(self)
                    }
                },
                Ok(()) => {
                    let cu = task.chunk_id as int;
                    let k = task.contribution_id;
                    let cloc = crate::storage::Locator::ContributionFile(
                        ContributionLocator {
                            round_height: old(self).round_height,
                            chunk_id: task.chunk_id,
                            contribution_id: k,
                            is_verified: false,
                        },
                    );
                    let produced = crate::storage::Locator::ContributionFile(
                        ContributionLocator {
                            round_height: old(self).round_height,
                            chunk_id: task.chunk_id,
                            contribution_id: k,
                            is_verified: true,
                        },
                    );
                    &&& old(self).verify_outcome(participant.address@, *task, transformation_valid)
                        is Ok
                    // the produced next challenge is stored and copied
                    // forward, byte-identically
                    &&& final(self).storage.get_spec(produced) == Some(next_challenge@)
                    &&& final(self).storage.get_spec(
                        crate::storage::Locator::ContributionFile(
                            ContributionLocator {
                                round_height: (old(self).round_height + 1) as u64,
                                chunk_id: task.chunk_id,
                                contribution_id: 0,
                                is_verified: true,
                            },
                        ),
                    ) == Some(next_challenge@)
                    &&& forall|l: crate::storage::Locator|
                        l != produced && l != crate::storage::Locator::ContributionFile(
                            ContributionLocator {
                                round_height: (old(self).round_height + 1) as u64,
                                chunk_id: task.chunk_id,
                                contribution_id: 0,
                                is_verified: true,
                            },
                        ) ==> final(self).storage.get_spec(l) == old(self).storage.get_spec(l)
                    // the chunk's verified id advances by exactly one and
                    // the digest of the stored bytes is recorded; then the
                    // round-completion check runs
                    &&& old(self).chunks@[cu].pending matches PendingContribution::Awaiting {
                        contributor,
                        ..
                    } && exists|m: Coordinator|
                        is_bump_of(
                            *old(self),
                            m,
                            cu,
                            contributor as int,
                            k,
                            blake2b_of(old(self).storage.get_spec(cloc)->Some_0),
                        ) && is_completion_of(m, *final(self))
                },
            },
    {
        if !(participant.address == self.verifier) {
            return Err(CoordinatorError::UnauthorizedVerifier);
        }
        if task.chunk_id >= self.chunks.len() as u64 {
            return Err(CoordinatorError::StaleVerification);
        }
        let cu = task.chunk_id as usize;
        let (p, k, recorded) = match &self.chunks[cu].pending {
            PendingContribution::Awaiting { contributor, contribution_id, digest } => (
                *contributor,
                *contribution_id,
                clone_bytes(digest),
            ),
            _ => {
                return Err(CoordinatorError::StaleVerification);
            },
        };
        if k != task.contribution_id {
            return Err(CoordinatorError::StaleVerification);
        }
        let cloc = ContributionLocator::new(self.round_height, task.chunk_id, k, false);
        let bytes = match self.storage.reader(&crate::storage::Locator::ContributionFile(cloc)) {
            Some(v) => clone_bytes(v),
            None => {
                return Err(CoordinatorError::StorageObjectMissing);
            },
        };
        let sloc = crate::objects::ContributionSignatureLocator::new(
            self.round_height,
            task.chunk_id,
            k,
            false,
        );
        if !self.storage.contains(&crate::storage::Locator::ContributionFileSignature(sloc)) {
            return Err(CoordinatorError::StorageObjectMissing);
        }
        // recompute the stored contribution's digest and hold it against
        // the digest recorded at upload time
        let recomputed = blake2b_digest(bytes.as_slice());
        if !bytes_equal(&recomputed, &recorded) {
            self.reject_contribution(cu, p, k);
            return Err(CoordinatorError::DigestMismatch);
        }
        if !transformation_valid {
            self.reject_contribution(cu, p, k);
            return Err(CoordinatorError::TransformationRejected);
        }
        // persist the produced next challenge and copy it forward to the
        // next round's challenge slot
        let produced = ContributionLocator::new(self.round_height, task.chunk_id, k, true);
        self.storage.write(
            crate::storage::Locator::ContributionFile(produced),
            next_challenge,
        );
        let forward = ContributionLocator::new(self.round_height + 1, task.chunk_id, 0, true);
        let copied = self.storage.copy(
            &crate::storage::Locator::ContributionFile(produced),
            crate::storage::Locator::ContributionFile(forward),
        );
        proof {
            assert(copied is Ok);
        }
        // the sanity check on the copy: both transcripts must digest
        // identically
        let h_produced = match self.storage.reader(
            &crate::storage::Locator::ContributionFile(produced),
        ) {
            Some(v) => blake2b_digest(v.as_slice()),
            None => {
                proof {
                    assert(false);
                }
                return Err(CoordinatorError::StorageObjectMissing);
            },
        };
        let h_forward = match self.storage.reader(
            &crate::storage::Locator::ContributionFile(forward),
        ) {
            Some(v) => blake2b_digest(v.as_slice()),
            None => {
                proof {
                    assert(false);
                }
                return Err(CoordinatorError::StorageObjectMissing);
            },
        };
        if !bytes_equal(&h_produced, &h_forward) {
            proof {
                assert(false);
            }
            return Err(CoordinatorError::InitializationTranscriptsDiffer);
        }
        let ghost pre = *old(self);
        let ghost post_write = *self;
        self.bump_verified(cu, p, k, recomputed);
        let ghost mid = *self;
        proof {
            assert(is_bump_of(pre, mid, cu as int, p as int, k, blake2b_of(bytes@)));
        }
        // the round-completion check runs after every successful
        // verification
        self.complete_round_if_due();
        proof {
            assert(exists|m: Coordinator|
                is_bump_of(pre, m, cu as int, p as int, k, blake2b_of(bytes@)) && is_completion_of(
                    m,
                    *self,
                )) by {
                assert(is_bump_of(pre, mid, cu as int, p as int, k, blake2b_of(bytes@))
                    && is_completion_of(mid, *self));
            }
        }
        Ok(())
    }

    /// Marks the chunk's awaiting contribution rejected: the slot
    /// empties, the task leaves the contributor's uploaded list, and —
    /// if the contributor is still current — returns to the front of
    /// its pending list so the slot can be retried.
    fn reject_contribution(&mut self, cu: usize, p: usize, k: u64)
        requires
            old(self).wf(),
            cu < old(self).chunks@.len(),
            p < old(self).participants().len(),
            old(self).chunks@[cu as int].pending matches PendingContribution::Awaiting {
                contributor,
                contribution_id,
                ..
            } && contributor == p && contribution_id == k,
        ensures
            final(self).wf(),
            final(self).round_height == old(self).round_height,
            final(self).locks == old(self).locks,
            final(self).storage == old(self).storage,
            final(self).verifier == old(self).verifier,
            final(self).heartbeat_timeout == old(self).heartbeat_timeout,
            final(self).lock_timeout == old(self).lock_timeout,
            final(self).shut_down == old(self).shut_down,
            final(self).contributions_info == old(self).contributions_info,
            final(self).contributions_summary == old(self).contributions_summary,
            final(self).chunks@.len() == old(self).chunks@.len(),
            forall|j: int|
                0 <= j < old(self).chunks@.len() && j != cu ==> final(self).chunks@[j] == old(self).chunks@[j],
            final(self).chunks@[cu as int].pending is Empty,
            final(self).chunks@[cu as int].verified_id == old(self).chunks@[cu as int].verified_id,
            final(self).chunks@[cu as int].last_verified_digest == old(self).chunks@[cu as int].last_verified_digest,
            final(self).chunks@[cu as int].history == old(self).chunks@[cu as int].history,
            final(self).participants().len() == old(self).participants().len(),
            forall|j: int|
                0 <= j < old(self).participants().len() && j != p ==> final(self).participants()[j]
                    == old(self).participants()[j],
            final(self).participants()[p as int].status == old(self).participants()[p as int].status,
            final(self).participants()[p as int].id == old(self).participants()[p as int].id,
            final(self).participants()[p as int].target_round == old(self).participants()[p as int].target_round,
            final(self).participants()[p as int].last_heartbeat == old(self).participants()[p as int].last_heartbeat,
            old(self).participants()[p as int].uploaded_tasks@.contains(
                Task { chunk_id: cu as u64, contribution_id: k },
            ) ==> final(self).participants()[p as int].uploaded_tasks@.len() == old(self).participants()[p as int].uploaded_tasks@.len() - 1,
            !old(self).participants()[p as int].uploaded_tasks@.contains(
                Task { chunk_id: cu as u64, contribution_id: k },
            ) ==> final(self).participants()[p as int].uploaded_tasks@ == old(self).participants()[p as int].uploaded_tasks@,
            old(self).participants()[p as int].status == ParticipantStatus::Current ==> final(self).participants()[p as int].pending_tasks@ == seq![
                Task { chunk_id: cu as u64, contribution_id: k },
            ] + old(self).participants()[p as int].pending_tasks@,
            old(self).participants()[p as int].status != ParticipantStatus::Current ==> final(self).participants()[p as int].pending_tasks@ == old(self).participants()[p as int].pending_tasks@,
    {
        let ghost pre = *self;
        let ch = vstd::std_specs::vec::vec_index_mut(&mut self.chunks, cu);
        ch.pending = PendingContribution::Empty;
        self.registry.remove_uploaded_task(p, Task::new(cu as u64, k));
        if matches!(self.registry.participants[p].status, ParticipantStatus::Current) {
            self.registry.push_front_pending_task(p, Task::new(cu as u64, k));
        }
        proof {
            let ps = self.participants();
            let pre_ps = pre.participants();
            assert(forall|j: int| 0 <= j < ps.len() && j != p ==> ps[j] == pre_ps[j]);
            assert(ids_distinct(ps)) by {
                assert(forall|j: int| 0 <= j < ps.len() ==> ps[j].id == pre_ps[j].id);
            }
            crate::registry::lemma_count_current_pointwise(pre_ps, ps);
            assert forall|j: int|
                0 <= j < self.chunks@.len() implies chunk_wf(#[trigger] self.chunks@[j], ps.len())
                by {
                if j != cu as int {
                    assert(self.chunks@[j] == pre.chunks@[j]);
                }
            }
            assert forall|a: int| 0 <= a < self.locks@.len() implies {
                let l = #[trigger] self.locks@[a];
                &&& l.chunk_id < self.n_chunks()
                &&& l.holder < ps.len()
                &&& ps[l.holder as int].status == ParticipantStatus::Current
                &&& l.contribution_id == self.chunks@[l.chunk_id as int].verified_id + 1
            } by {
                assert(pre.locks@[a] == self.locks@[a]);
                assert(ps[self.locks@[a].holder as int].status == pre_ps[self.locks@[a].holder as int].status);
                assert(self.chunks@[self.locks@[a].chunk_id as int].verified_id
                    == pre.chunks@[self.locks@[a].chunk_id as int].verified_id);
            }
            assert forall|j: int|
                0 <= j < ps.len() && queued_at(ps, j) && (#[trigger] ps[j]).target_round is Some
                implies ps[j].target_round->0 >= self.round_height + 1 + queued_rank(ps, j) by {
                assert(ps[j].status == pre_ps[j].status);
                assert(queued_at(pre_ps, j));
                assert(ps[j].target_round == pre_ps[j].target_round);
                crate::registry::lemma_count_queued_pointwise(ps.take(j), pre_ps.take(j));
            }
        }
    }

    /// Whether the participant at registry index `p` holds any lock.
    fn holds_any_lock(&self, p: usize) -> (r: bool)
        ensures
            r == !(forall|a: int|
                0 <= a < self.locks@.len() ==> (#[trigger] self.locks@[a]).holder != p),
    {
        let n = self.locks.len();
        let mut a: usize = 0;
        while a < n
            invariant
                a <= n,
                n == self.locks@.len(),
                forall|b: int| 0 <= b < a ==> (#[trigger] self.locks@[b]).holder != p,
            decreases n - a,
        {
            if self.locks[a].holder == p {
                return true;
            }
            a = a + 1;
        }
        false
    }

    /// Marks the participant finished once both of its task lists are
    /// empty and it holds no lock.
    fn maybe_finish(&mut self, p: usize)
        requires
            old(self).wf(),
            p < old(self).participants().len(),
        ensures
            final(self).wf(),
            final(self).same_but_registry(old(self)),
            final(self).participants().len() == old(self).participants().len(),
            forall|j: int|
                0 <= j < old(self).participants().len() && j != p ==> final(self).participants()[j]
                    == old(self).participants()[j],
            ({
                let pre_p = old(self).participants()[p as int];
                let finish = pre_p.status == ParticipantStatus::Current
                    && pre_p.pending_tasks@.len() == 0 && pre_p.uploaded_tasks@.len() == 0 && (
                forall|a: int|
                    0 <= a < old(self).locks@.len() ==> (#[trigger] old(self).locks@[a]).holder
                        != p);
                if finish {
                    final(self).participants()[p as int] == (ParticipantInfo {
                        status: ParticipantStatus::Finished,
                        ..pre_p
                    })
                } else {
                    final(self).participants()[p as int] == pre_p
                }
            }),
    {
        if !matches!(self.registry.participants[p].status, ParticipantStatus::Current) {
            return ;
        }
        if self.registry.participants[p].pending_tasks.len() > 0 {
            return ;
        }
        if self.registry.participants[p].uploaded_tasks.len() > 0 {
            return ;
        }
        if self.holds_any_lock(p) {
            return ;
        }
        let ghost pre = *self;
        self.registry.set_status(p, ParticipantStatus::Finished);
        proof {
            let ps = self.participants();
            let pre_ps = pre.participants();
            assert(ids_distinct(ps)) by {
                assert(forall|j: int| 0 <= j < ps.len() ==> ps[j].id == pre_ps[j].id);
            }
            lemma_count_current_update(
                pre_ps,
                p as int,
                ParticipantInfo { status: ParticipantStatus::Finished, ..pre_ps[p as int] },
            );
            assert forall|a2: int| 0 <= a2 < self.locks@.len() implies {
                let l = #[trigger] self.locks@[a2];
                &&& l.chunk_id < self.n_chunks()
                &&& l.holder < ps.len()
                &&& ps[l.holder as int].status == ParticipantStatus::Current
                &&& l.contribution_id == self.chunks@[l.chunk_id as int].verified_id + 1
            } by {
                assert(pre.locks@[a2] == self.locks@[a2]);
                assert(self.locks@[a2].holder != p);
            }
            assert forall|j: int|
                0 <= j < ps.len() && queued_at(ps, j) && (#[trigger] ps[j]).target_round is Some
                implies ps[j].target_round->0 >= self.round_height + 1 + queued_rank(ps, j) by {
                assert(j != p);
                assert(ps[j] == pre_ps[j]);
                assert(queued_at(pre_ps, j));
                lemma_rank_update(
                    pre_ps,
                    p as int,
                    ParticipantInfo { status: ParticipantStatus::Finished, ..pre_ps[p as int] },
                    j,
                );
            }
        }
    }

    /// Begins the next round: the height increments, every chunk
    /// starts open again, and all locks are void.
    fn advance_round(&mut self)
        requires
            old(self).wf(),
            old(self).round_complete_spec(),
            old(self).round_height < MAX_ROUND_HEIGHT,
        ensures
            final(self).wf(),
            final(self).round_height == old(self).round_height + 1,
            final(self).locks@.len() == 0,
            final(self).contributions_info == old(self).contributions_info,
            final(self).contributions_summary == old(self).contributions_summary,
            final(self).participants().len() == old(self).participants().len(),
            forall|j: int|
                0 <= j < old(self).participants().len() ==> final(self).participants()[j] == (
                if queued_at(old(self).participants(), j) {
                    ParticipantInfo { target_round: Option::None, ..old(self).participants()[j] }
                } else {
                    old(self).participants()[j]
                }),
            final(self).storage == old(self).storage,
            final(self).verifier == old(self).verifier,
            final(self).heartbeat_timeout == old(self).heartbeat_timeout,
            final(self).lock_timeout == old(self).lock_timeout,
            final(self).shut_down == old(self).shut_down,
            final(self).chunks@.len() == old(self).chunks@.len(),
            forall|c: int|
                0 <= c < final(self).chunks@.len() ==> chunk_open(#[trigger] final(self).chunks@[c])
                    && final(self).chunks@[c].verified_id == 0
                    && final(self).chunks@[c].last_verified_digest == old(self).chunks@[c].last_verified_digest,
    {
        self.round_height = self.round_height + 1;
        self.locks = Vec::new();
        self.registry.clear_queued_targets();
        let n = self.chunks.len();
        let mut c: usize = 0;
        while c < n
            invariant
                c <= n,
                n == self.chunks@.len(),
                old(self).wf(),
                self.chunks@.len() == old(self).chunks@.len(),
                self.round_height == old(self).round_height + 1,
                old(self).round_height < MAX_ROUND_HEIGHT,
                self.locks@.len() == 0,
                self.storage == old(self).storage,
                self.verifier == old(self).verifier,
                self.heartbeat_timeout == old(self).heartbeat_timeout,
                self.lock_timeout == old(self).lock_timeout,
                self.shut_down == old(self).shut_down,
                self.contributions_info == old(self).contributions_info,
                self.contributions_summary == old(self).contributions_summary,
                self.participants().len() == old(self).participants().len(),
                forall|j: int|
                    0 <= j < old(self).participants().len() ==> self.participants()[j] == (
                    if queued_at(old(self).participants(), j) {
                        ParticipantInfo {
                            target_round: Option::None,
                            ..old(self).participants()[j]
                        }
                    } else {
                        old(self).participants()[j]
                    }),
                forall|j: int|
                    0 <= j < c ==> chunk_open(#[trigger] self.chunks@[j])
                        && self.chunks@[j].verified_id == 0 && chunk_wf(self.chunks@[j], 0)
                        && self.chunks@[j].last_verified_digest == old(self).chunks@[j].last_verified_digest,
                forall|j: int| c <= j < n ==> self.chunks@[j] == old(self).chunks@[j],
            decreases n - c,
        {
            let ch = vstd::std_specs::vec::vec_index_mut(&mut self.chunks, c);
            ch.verified_id = 0;
            ch.pending = PendingContribution::Empty;
            ch.history = Ghost(Seq::empty());
            proof {
                assert(final(ch).history@ =~= Seq::new(0nat, |i: int| (i + 1) as u64));
            }
            c = c + 1;
        }
        proof {
            let ps = self.participants();
            let pre_ps = old(self).participants();
            assert(ids_distinct(ps)) by {
                assert(forall|j: int| 0 <= j < ps.len() ==> ps[j].id == pre_ps[j].id);
            }
            crate::registry::lemma_count_current_pointwise(pre_ps, ps);
            assert forall|j: int|
                0 <= j < self.chunks@.len() implies chunk_wf(
                #[trigger] self.chunks@[j],
                ps.len(),
            ) by {
                assert(chunk_wf(self.chunks@[j], 0));
            }
            assert forall|j: int|
                0 <= j < ps.len() && queued_at(ps, j) && (#[trigger] ps[j]).target_round is Some
                implies ps[j].target_round->0 >= self.round_height + 1 + queued_rank(ps, j) by {
                assert(ps[j].target_round is None);
            }
        }
    }

    /// Removes the lock on chunk `c`, if one is held.
    fn release_lock_on(&mut self, c: u64)
        requires
            forall|a: int, b: int|
                0 <= a < b < old(self).locks@.len() ==> (#[trigger] old(self).locks@[a]).chunk_id
                    != (#[trigger] old(self).locks@[b]).chunk_id,
        ensures
            final(self).same_but_locks(old(self)),
            !final(self).is_locked_spec(c),
            forall|c2: u64|
                c2 != c ==> #[trigger] final(self).is_locked_spec(c2) == old(self).is_locked_spec(
                    c2,
                ),
            old(self).is_locked_spec(c) ==> exists|a: int|
                0 <= a < old(self).locks@.len() && (#[trigger] old(self).locks@[a]).chunk_id == c
                    && final(self).locks@ == old(self).locks@.remove(a),
            !old(self).is_locked_spec(c) ==> final(self).locks@ == old(self).locks@,
    {
        let ghost pre_locks = self.locks@;
        match self.find_lock(c) {
            Some(a) => {
                self.locks.remove(a);
                proof {
                    assert forall|b: int| 0 <= b < self.locks@.len() implies (
                    #[trigger] self.locks@[b]).chunk_id != c by {
                        if b < a {
                            assert(self.locks@[b] == pre_locks[b]);
                        } else {
                            assert(self.locks@[b] == pre_locks[b + 1]);
                        }
                    }
                    assert forall|c2: u64| c2 != c implies #[trigger] self.is_locked_spec(c2)
                        == old(self).is_locked_spec(c2) by {
                        if old(self).is_locked_spec(c2) {
                            let b = choose|b: int|
                                0 <= b < pre_locks.len() && (#[trigger] pre_locks[b]).chunk_id
                                    == c2;
                            assert(b != a);
                            if b < a {
                                assert(self.locks@[b].chunk_id == c2);
                            } else {
                                assert(self.locks@[b - 1].chunk_id == c2);
                            }
                            assert(self.is_locked_spec(c2));
                        }
                        if self.is_locked_spec(c2) {
                            let b = choose|b: int|
                                0 <= b < self.locks@.len() && (#[trigger] self.locks@[b]).chunk_id
                                    == c2;
                            if b < a {
                                assert(pre_locks[b].chunk_id == c2);
                            } else {
                                assert(pre_locks[b + 1].chunk_id == c2);
                            }
                            assert(old(self).is_locked_spec(c2));
                        }
                    }
                }
            },
            None => {},
        }
    }

    /// A participant that still takes part: queued or current.
    pub open spec fn active_at(ps: Seq<ParticipantInfo>, j: int) -> bool {
        ps[j].status == ParticipantStatus::Queued || ps[j].status == ParticipantStatus::Current
    }

    /// A heartbeat or lock instant that has outlived its window.
    pub open spec fn stale_spec(last: u64, timeout: u64, now: u64) -> bool {
        last + timeout < now
    }

    /// The queue position the participant at `j` would be told: its
    /// assigned target round minus the current round, or the queue
    /// length while no target is assigned.  Recomputed on read, so it
    /// stays correct as others advance or drop.
    pub open spec fn queue_position_spec(&self, j: int) -> int {
        match self.participants()[j].target_round {
            Option::Some(t) => t - self.round_height,
            Option::None => count_queued(self.participants()) as int,
        }
    }

    /// Evicts the participant at `i`: its status becomes dropped, its
    /// unfinished tasks are withdrawn for reassignment, its locks are
    /// released and its half-written slots are emptied.
    #[verifier::rlimit(100)]
    #[verifier::spinoff_prover]
    fn drop_participant_at(&mut self, i: usize)
        requires
            old(self).wf(),
            i < old(self).participants().len(),
            Self::active_at(old(self).participants(), i as int),
        ensures
            final(self).wf(),
            final(self).round_height == old(self).round_height,
            final(self).storage == old(self).storage,
            final(self).verifier == old(self).verifier,
            final(self).heartbeat_timeout == old(self).heartbeat_timeout,
            final(self).lock_timeout == old(self).lock_timeout,
            final(self).shut_down == old(self).shut_down,
            final(self).contributions_info == old(self).contributions_info,
            final(self).contributions_summary == old(self).contributions_summary,
            final(self).chunks@.len() == old(self).chunks@.len(),
            forall|c: int|
                0 <= c < old(self).chunks@.len() ==> {
                    let pre_ch = old(self).chunks@[c];
                    let ch = #[trigger] final(self).chunks@[c];
                    &&& ch.verified_id == pre_ch.verified_id
                    &&& ch.last_verified_digest == pre_ch.last_verified_digest
                    &&& ch.history == pre_ch.history
                    &&& (ch.pending == pre_ch.pending || ch.pending is Empty)
                },
            old(self).participants()[i as int].status == ParticipantStatus::Current ==> final(self).locks@.len() == 0,
            old(self).participants()[i as int].status != ParticipantStatus::Current ==> final(self).locks == old(self).locks,
            final(self).participants().len() == old(self).participants().len(),
            forall|j: int|
                0 <= j < old(self).participants().len() && j != i ==> final(self).participants()[j]
                    == old(self).participants()[j],
            final(self).participants()[i as int].status == ParticipantStatus::Dropped,
            final(self).participants()[i as int].id == old(self).participants()[i as int].id,
            final(self).participants()[i as int].last_heartbeat == old(self).participants()[i as int].last_heartbeat,
            final(self).participants()[i as int].pending_tasks@ == Seq::<Task>::empty(),
    {
        let ghost pre = *self;
        let was_current = matches!(
            self.registry.participants[i].status,
            ParticipantStatus::Current
        );
        self.registry.set_status(i, ParticipantStatus::Dropped);
        let uploaded = clone_tasks(&self.registry.participants[i].uploaded_tasks);
        self.registry.set_tasks(i, Vec::new(), uploaded);
        if was_current {
            self.locks = Vec::new();
        }
        // empty the slots this participant had written but not signed
        let n = self.chunks.len();
        let mut c: usize = 0;
        let ghost reg_mid = *self;
        while c < n
            invariant
                c <= n,
                n == self.chunks@.len(),
                self.chunks@.len() == pre.chunks@.len(),
                self.registry == reg_mid.registry,
                self.locks == reg_mid.locks,
                self.round_height == reg_mid.round_height,
                self.storage == reg_mid.storage,
                self.verifier == reg_mid.verifier,
                self.heartbeat_timeout == reg_mid.heartbeat_timeout,
                self.lock_timeout == reg_mid.lock_timeout,
                self.shut_down == reg_mid.shut_down,
                self.contributions_info == reg_mid.contributions_info,
                self.contributions_summary == reg_mid.contributions_summary,
                forall|j: int|
                    0 <= j < n ==> {
                        let pre_ch = pre.chunks@[j];
                        let ch = #[trigger] self.chunks@[j];
                        &&& ch.verified_id == pre_ch.verified_id
                        &&& ch.last_verified_digest == pre_ch.last_verified_digest
                        &&& ch.history == pre_ch.history
                        &&& (ch.pending == pre_ch.pending || ch.pending is Empty)
                    },
                forall|j: int| c <= j < n ==> self.chunks@[j] == pre.chunks@[j],
            decreases n - c,
        {
            let clear = match &self.chunks[c].pending {
                PendingContribution::Written { contributor, .. } => *contributor == i,
                _ => false,
            };
            if clear {
                let ch = vstd::std_specs::vec::vec_index_mut(&mut self.chunks, c);
                ch.pending = PendingContribution::Empty;
            }
            c = c + 1;
        }
        proof {
            let ps = self.participants();
            let pre_ps = pre.participants();
            assert(ids_distinct(ps)) by {
                assert(forall|j: int| 0 <= j < ps.len() ==> ps[j].id == pre_ps[j].id);
            }
            let x = ParticipantInfo { status: ParticipantStatus::Dropped, ..pre_ps[i as int] };
            lemma_count_current_update(pre_ps, i as int, x);
            crate::registry::lemma_count_current_pointwise(pre_ps.update(i as int, x), ps);
            assert forall|j: int|
                0 <= j < self.chunks@.len() implies chunk_wf(#[trigger] self.chunks@[j], ps.len())
                by {
                assert(chunk_wf(pre.chunks@[j], pre_ps.len()));
            }
            if !was_current {
                assert forall|a: int| 0 <= a < self.locks@.len() implies {
                    let l = #[trigger] self.locks@[a];
                    &&& l.chunk_id < self.n_chunks()
                    &&& l.holder < ps.len()
                    &&& ps[l.holder as int].status == ParticipantStatus::Current
                    &&& l.contribution_id == self.chunks@[l.chunk_id as int].verified_id + 1
                } by {
                    assert(pre.locks@[a] == self.locks@[a]);
                    assert(pre.locks@[a].holder != i);
                }
            }
            assert forall|j: int|
                0 <= j < ps.len() && queued_at(ps, j) && (#[trigger] ps[j]).target_round is Some
                implies ps[j].target_round->0 >= self.round_height + 1 + queued_rank(ps, j) by {
                assert(j != i);
                assert(ps[j] == pre_ps[j]);
                assert(queued_at(pre_ps, j));
                lemma_rank_update(pre_ps, i as int, x, j);
                crate::registry::lemma_count_queued_pointwise(
                    pre_ps.update(i as int, x).take(j),
                    ps.take(j),
                );
            }
        }
    }

    /// The index of a lock whose window has passed, if any.
    fn find_stale_lock(&self, now: u64) -> (r: Option<usize>)
        ensures
            match r {
                Some(a) => a < self.locks@.len() && Self::stale_spec(
                    self.locks@[a as int].acquired_at,
                    self.lock_timeout,
                    now,
                ),
                None => forall|a: int|
                    0 <= a < self.locks@.len() ==> !Self::stale_spec(
                        (#[trigger] self.locks@[a]).acquired_at,
                        self.lock_timeout,
                        now,
                    ),
            },
    {
        let n = self.locks.len();
        let mut a: usize = 0;
        while a < n
            invariant
                a <= n,
                n == self.locks@.len(),
                forall|b: int|
                    0 <= b < a ==> !Self::stale_spec(
                        (#[trigger] self.locks@[b]).acquired_at,
                        self.lock_timeout,
                        now,
                    ),
            decreases n - a,
        {
            let acquired = self.locks[a].acquired_at;
            if now > self.lock_timeout && acquired < now - self.lock_timeout {
                return Some(a);
            }
            a = a + 1;
        }
        None
    }

    /// The maintenance sweep: drops every participant whose heartbeat
    /// window has passed, then releases every lock whose window has
    /// passed.
    #[verifier::rlimit(100)]
    #[verifier::spinoff_prover]
    fn sweep(&mut self, now: u64)
        requires
            old(self).wf(),
        ensures
            final(self).wf(),
            final(self).round_height == old(self).round_height,
            final(self).storage == old(self).storage,
            final(self).verifier == old(self).verifier,
            final(self).heartbeat_timeout == old(self).heartbeat_timeout,
            final(self).lock_timeout == old(self).lock_timeout,
            final(self).shut_down == old(self).shut_down,
            final(self).contributions_info == old(self).contributions_info,
            final(self).contributions_summary == old(self).contributions_summary,
            final(self).chunks@.len() == old(self).chunks@.len(),
            forall|c: int|
                0 <= c < old(self).chunks@.len() ==> (#[trigger] final(self).chunks@[c]).verified_id
                    == old(self).chunks@[c].verified_id,
            // no remaining active participant missed its window
            forall|j: int|
                0 <= j < final(self).participants().len() && Self::active_at(
                    final(self).participants(),
                    j,
                ) ==> !Self::stale_spec(
                    (#[trigger] final(self).participants()[j]).last_heartbeat,
                    final(self).heartbeat_timeout,
                    now,
                ),
            // no remaining lock outlived its window
            forall|a: int|
                0 <= a < final(self).locks@.len() ==> !Self::stale_spec(
                    (#[trigger] final(self).locks@[a]).acquired_at,
                    final(self).lock_timeout,
                    now,
                ),
            // a participant that missed its window is dropped
            forall|j: int|
                0 <= j < old(self).participants().len() && Self::active_at(
                    old(self).participants(),
                    j,
                ) && Self::stale_spec(
                    (#[trigger] old(self).participants()[j]).last_heartbeat,
                    old(self).heartbeat_timeout,
                    now,
                ) ==> final(self).participants()[j].status == ParticipantStatus::Dropped,
            // participants leave the queue only by being dropped here
            final(self).participants().len() == old(self).participants().len(),
            forall|j: int|
                0 <= j < final(self).participants().len() && queued_at(
                    final(self).participants(),
                    j,
                ) ==> final(self).participants()[j] == old(self).participants()[j],
            forall|j: int|
                0 <= j < final(self).participants().len() && queued_at(
                    final(self).participants(),
                    j,
                ) ==> queued_at(old(self).participants(), j),
            // identities keep their registry places
            forall|j: int|
                0 <= j < old(self).participants().len() ==> (
                #[trigger] final(self).participants()[j]).id == old(self).participants()[j].id,
            // a participant within its window is untouched
            forall|j: int|
                0 <= j < old(self).participants().len() && !(Self::active_at(
                    old(self).participants(),
                    j,
                ) && Self::stale_spec(
                    (#[trigger] old(self).participants()[j]).last_heartbeat,
                    old(self).heartbeat_timeout,
                    now,
                )) ==> final(self).participants()[j] == old(self).participants()[j],
            // a lock within its window whose holder is within its window
            // stays held
            forall|a: int|
                0 <= a < old(self).locks@.len() && !Self::stale_spec(
                    (#[trigger] old(self).locks@[a]).acquired_at,
                    old(self).lock_timeout,
                    now,
                ) && !Self::stale_spec(
                    old(self).participants()[old(self).locks@[a].holder as int].last_heartbeat,
                    old(self).heartbeat_timeout,
                    now,
                ) ==> lock_from(final(self).locks@, old(self).locks@[a]),
    {
        proof {
            assert forall|a0: int| 0 <= a0 < old(self).locks@.len() implies lock_from(
                old(self).locks@,
                #[trigger] old(self).locks@[a0],
            ) by {
                assert(old(self).locks@[a0] == old(self).locks@[a0]);
            }
        }
        let n = self.registry.participants.len();
        let mut i: usize = 0;
        while i < n
            invariant
                i <= n,
                old(self).wf(),
                self.wf(),
                n == self.participants().len(),
                self.participants().len() == old(self).participants().len(),
                self.round_height == old(self).round_height,
                self.storage == old(self).storage,
                self.verifier == old(self).verifier,
                self.heartbeat_timeout == old(self).heartbeat_timeout,
                self.lock_timeout == old(self).lock_timeout,
                self.shut_down == old(self).shut_down,
                self.contributions_info == old(self).contributions_info,
                self.contributions_summary == old(self).contributions_summary,
                self.chunks@.len() == old(self).chunks@.len(),
                forall|c: int|
                    0 <= c < old(self).chunks@.len() ==> (#[trigger] self.chunks@[c]).verified_id
                        == old(self).chunks@[c].verified_id,
                forall|j: int|
                    0 <= j < n ==> (#[trigger] self.participants()[j]).id == old(
                        self,
                    ).participants()[j].id,
                forall|j: int|
                    0 <= j < i && Self::active_at(self.participants(), j) ==> !Self::stale_spec(
                        (#[trigger] self.participants()[j]).last_heartbeat,
                        self.heartbeat_timeout,
                        now,
                    ),
                forall|j: int|
                    0 <= j < i && Self::active_at(old(self).participants(), j) && Self::stale_spec(
                        (#[trigger] old(self).participants()[j]).last_heartbeat,
                        old(self).heartbeat_timeout,
                        now,
                    ) ==> self.participants()[j].status == ParticipantStatus::Dropped,
                forall|j: int|
                    0 <= j < n && !(Self::active_at(old(self).participants(), j)
                        && Self::stale_spec(
                        (#[trigger] old(self).participants()[j]).last_heartbeat,
                        old(self).heartbeat_timeout,
                        now,
                    )) ==> self.participants()[j] == old(self).participants()[j],
                forall|j: int|
                    0 <= j < n && queued_at(self.participants(), j) ==> self.participants()[j]
                        == old(self).participants()[j] && queued_at(old(self).participants(), j),
                forall|j: int|
                    i <= j < n ==> self.participants()[j] == old(self).participants()[j],
                forall|a0: int|
                    0 <= a0 < old(self).locks@.len() && !Self::stale_spec(
                        (#[trigger] old(self).locks@[a0]).acquired_at,
                        old(self).lock_timeout,
                        now,
                    ) && !Self::stale_spec(
                        old(self).participants()[old(self).locks@[a0].holder as int].last_heartbeat,
                        old(self).heartbeat_timeout,
                        now,
                    ) ==> lock_from(self.locks@, old(self).locks@[a0]),
            decreases n - i,
        {
            let st_active = matches!(
                self.registry.participants[i].status,
                ParticipantStatus::Queued | ParticipantStatus::Current
            );
            let last = self.registry.participants[i].last_heartbeat;
            if st_active && now > self.heartbeat_timeout && last < now - self.heartbeat_timeout {
                let ghost pre_it = *self;
                self.drop_participant_at(i);
                proof {
                    assert forall|a0: int|
                        0 <= a0 < old(self).locks@.len() && !Self::stale_spec(
                            (#[trigger] old(self).locks@[a0]).acquired_at,
                            old(self).lock_timeout,
                            now,
                        ) && !Self::stale_spec(
                            old(
                                self,
                            ).participants()[old(self).locks@[a0].holder as int].last_heartbeat,
                            old(self).heartbeat_timeout,
                            now,
                        ) implies lock_from(self.locks@, old(self).locks@[a0]) by {
                        let l0 = old(self).locks@[a0];
                        assert(lock_from(pre_it.locks@, l0));
                        let b = choose|b: int|
                            0 <= b < pre_it.locks@.len() && l0 == #[trigger] pre_it.locks@[b];
                        if pre_it.participants()[i as int].status == ParticipantStatus::Current {
                            // every lock's holder is current, and the one
                            // current participant is the stale one being
                            // dropped — so a lock with a fresh holder
                            // cannot exist
                            let h = l0.holder as int;
                            assert(pre_it.participants()[h].status == ParticipantStatus::Current);
                            assert(pre_it.participants()[h] == old(self).participants()[h]);
                            if h < i as int {
                                crate::registry::lemma_two_current(
                                    pre_it.participants(),
                                    h,
                                    i as int,
                                );
                            } else if h > i as int {
                                crate::registry::lemma_two_current(
                                    pre_it.participants(),
                                    i as int,
                                    h,
                                );
                            }
                            assert(false);
                        } else {
                            assert(self.locks == pre_it.locks);
                            assert(self.locks@[b] == l0);
                        }
                    }
                }
            }
            i = i + 1;
        }
        // release every lock that outlived its window
        loop
            invariant
                old(self).wf(),
                self.wf(),
                self.round_height == old(self).round_height,
                self.storage == old(self).storage,
                self.verifier == old(self).verifier,
                self.heartbeat_timeout == old(self).heartbeat_timeout,
                self.lock_timeout == old(self).lock_timeout,
                self.shut_down == old(self).shut_down,
                self.contributions_info == old(self).contributions_info,
                self.contributions_summary == old(self).contributions_summary,
                self.chunks@.len() == old(self).chunks@.len(),
                forall|c: int|
                    0 <= c < old(self).chunks@.len() ==> (#[trigger] self.chunks@[c]).verified_id
                        == old(self).chunks@[c].verified_id,
                self.participants().len() == old(self).participants().len(),
                forall|j: int|
                    0 <= j < self.participants().len() ==> (#[trigger] self.participants()[j]).id
                        == old(self).participants()[j].id,
                forall|j: int|
                    0 <= j < self.participants().len() && Self::active_at(self.participants(), j)
                        ==> !Self::stale_spec(
                        (#[trigger] self.participants()[j]).last_heartbeat,
                        self.heartbeat_timeout,
                        now,
                    ),
                forall|j: int|
                    0 <= j < self.participants().len() && queued_at(self.participants(), j)
                        ==> self.participants()[j] == old(self).participants()[j] && queued_at(
                        old(self).participants(),
                        j,
                    ),
                forall|j: int|
                    0 <= j < old(self).participants().len() && Self::active_at(
                        old(self).participants(),
                        j,
                    ) && Self::stale_spec(
                        (#[trigger] old(self).participants()[j]).last_heartbeat,
                        old(self).heartbeat_timeout,
                        now,
                    ) ==> self.participants()[j].status == ParticipantStatus::Dropped,
                forall|j: int|
                    0 <= j < old(self).participants().len() && !(Self::active_at(
                        old(self).participants(),
                        j,
                    ) && Self::stale_spec(
                        (#[trigger] old(self).participants()[j]).last_heartbeat,
                        old(self).heartbeat_timeout,
                        now,
                    )) ==> self.participants()[j] == old(self).participants()[j],
                forall|a0: int|
                    0 <= a0 < old(self).locks@.len() && !Self::stale_spec(
                        (#[trigger] old(self).locks@[a0]).acquired_at,
                        old(self).lock_timeout,
                        now,
                    ) && !Self::stale_spec(
                        old(self).participants()[old(self).locks@[a0].holder as int].last_heartbeat,
                        old(self).heartbeat_timeout,
                        now,
                    ) ==> lock_from(self.locks@, old(self).locks@[a0]),
            ensures
                forall|a: int|
                    0 <= a < self.locks@.len() ==> !Self::stale_spec(
                        (#[trigger] self.locks@[a]).acquired_at,
                        self.lock_timeout,
                        now,
                    ),
            decreases self.locks@.len(),
        {
            match self.find_stale_lock(now) {
                Some(a) => {
                    let c = self.locks[a].chunk_id;
                    let ghost stale_idx = a as int;
                    let ghost pre_step = *self;
                    self.release_lock_on(c);
                    proof {
                        assert(pre_step.is_locked_spec(c));
                        lemma_release_step(pre_step.locks@, self.locks@, c);
                        assert forall|a2: int| 0 <= a2 < self.locks@.len() implies {
                            let l = #[trigger] self.locks@[a2];
                            &&& l.chunk_id < self.n_chunks()
                            &&& l.holder < self.participants().len()
                            &&& self.participants()[l.holder as int].status
                                == ParticipantStatus::Current
                            &&& l.contribution_id == self.chunks@[l.chunk_id as int].verified_id
                                + 1
                            &&& self.chunks@[l.chunk_id as int].verified_id
                                < CONTRIBUTIONS_PER_ROUND
                        } by {
                            assert(lock_from(pre_step.locks@, self.locks@[a2]));
                            let b = choose|b: int|
                                0 <= b < pre_step.locks@.len() && self.locks@[a2]
                                    == #[trigger] pre_step.locks@[b];
                        }
                        // only the stale lock left; the fresh ones survive
                        let w = choose|w: int|
                            0 <= w < pre_step.locks@.len() && (
                            #[trigger] pre_step.locks@[w]).chunk_id == c && self.locks@
                                == pre_step.locks@.remove(w);
                        assert(w == stale_idx);
                        assert forall|a0: int|
                            0 <= a0 < old(self).locks@.len() && !Self::stale_spec(
                                (#[trigger] old(self).locks@[a0]).acquired_at,
                                old(self).lock_timeout,
                                now,
                            ) && !Self::stale_spec(
                                old(
                                    self,
                                ).participants()[old(self).locks@[a0].holder as int].last_heartbeat,
                                old(self).heartbeat_timeout,
                                now,
                            ) implies lock_from(self.locks@, old(self).locks@[a0]) by {
                            let l0 = old(self).locks@[a0];
                            assert(lock_from(pre_step.locks@, l0));
                            let b = choose|b: int|
                                0 <= b < pre_step.locks@.len() && l0 == #[trigger] pre_step.locks@[b];
                            // the removed lock is stale, this one is not
                            assert(Self::stale_spec(
                                pre_step.locks@[w].acquired_at,
                                pre_step.lock_timeout,
                                now,
                            ));
                            assert(b != w);
                            if b < w {
                                assert(self.locks@[b] == l0);
                            } else {
                                assert(self.locks@[b - 1] == l0);
                            }
                        }
                        assert(self.locks@.len() < pre_step.locks@.len());
                    }
                },
                None => {
                    break ;
                },
            }
        }
    }

    /// Assigns every queued participant its target round: the current
    /// round plus one plus its rank, so the earliest queued joins the
    /// next round.
    #[verifier::rlimit(100)]
    #[verifier::spinoff_prover]
    fn assign_targets(&mut self)
        requires
            old(self).wf(),
        ensures
            final(self).wf(),
            final(self).same_but_registry(old(self)),
            final(self).participants().len() == old(self).participants().len(),
            forall|j: int|
                0 <= j < old(self).participants().len() ==> final(self).participants()[j] == (
                if queued_at(old(self).participants(), j) {
                    ParticipantInfo {
                        target_round: Option::Some(
                            (old(self).round_height + 1 + queued_rank(
                                old(self).participants(),
                                j,
                            )) as u64,
                        ),
                        ..old(self).participants()[j]
                    }
                } else {
                    old(self).participants()[j]
                }),
            forall|j: int|
                0 <= j < old(self).participants().len() ==> {
                    let pre_j = old(self).participants()[j];
                    let post_j = #[trigger] final(self).participants()[j];
                    &&& post_j.id == pre_j.id
                    &&& post_j.last_heartbeat == pre_j.last_heartbeat
                    &&& post_j.status == pre_j.status
                },
    {
        self.registry.assign_targets(self.round_height);
        proof {
            let ps = self.participants();
            let pre_ps = old(self).participants();
            assert(ids_distinct(ps)) by {
                assert(forall|j: int| 0 <= j < ps.len() ==> ps[j].id == pre_ps[j].id);
            }
            assert(forall|j: int|
                0 <= j < ps.len() ==> (#[trigger] ps[j]).status == pre_ps[j].status);
            crate::registry::lemma_count_current_pointwise(pre_ps, ps);
            assert forall|j: int|
                0 <= j < self.chunks@.len() implies chunk_wf(#[trigger] self.chunks@[j], ps.len())
                by {
                assert(chunk_wf(old(self).chunks@[j], pre_ps.len()));
            }
            assert forall|a: int| 0 <= a < self.locks@.len() implies {
                let l = #[trigger] self.locks@[a];
                &&& l.chunk_id < self.n_chunks()
                &&& l.holder < ps.len()
                &&& ps[l.holder as int].status == ParticipantStatus::Current
                &&& l.contribution_id == self.chunks@[l.chunk_id as int].verified_id + 1
            } by {
                assert(old(self).locks@[a] == self.locks@[a]);
            }
            assert forall|j: int|
                0 <= j < ps.len() && queued_at(ps, j) && (#[trigger] ps[j]).target_round is Some
                implies ps[j].target_round->0 >= self.round_height + 1 + queued_rank(ps, j) by {
                assert(queued_at(pre_ps, j));
                crate::registry::lemma_count_queued_pointwise(ps.take(j), pre_ps.take(j));
                crate::registry::lemma_count_queued_le_len(pre_ps.take(j));
                assert(pre_ps.take(j).len() == j);
            }
        }
    }

    /// The periodic maintenance pass, the only place wall-clock-driven
    /// state changes happen: drops participants whose heartbeats
    /// lapsed, releases locks whose windows passed, retries the
    /// round-completion check, seats a current contributor if the slot
    /// is free, and reassigns every queued participant's target round.
    /// Queue positions never increase across a pass.
    #[verifier::rlimit(100)]
    #[verifier::spinoff_prover]
    pub fn update(&mut self, now: u64)
        requires
            old(self).wf(),
        ensures
            final(self).wf(),
            final(self).storage == old(self).storage,
            final(self).verifier == old(self).verifier,
            final(self).heartbeat_timeout == old(self).heartbeat_timeout,
            final(self).lock_timeout == old(self).lock_timeout,
            final(self).shut_down == old(self).shut_down,
            // stale heartbeats were dropped: whoever still takes part is fresh
            forall|j: int|
                0 <= j < final(self).participants().len() && Self::active_at(
                    final(self).participants(),
                    j,
                ) ==> !Self::stale_spec(
                    (#[trigger] final(self).participants()[j]).last_heartbeat,
                    final(self).heartbeat_timeout,
                    now,
                ),
            // stale locks were released
            forall|a: int|
                0 <= a < final(self).locks@.len() ==> !Self::stale_spec(
                    (#[trigger] final(self).locks@[a]).acquired_at,
                    final(self).lock_timeout,
                    now,
                ),
            // a participant that missed its window ends the pass dropped
            forall|j: int|
                0 <= j < old(self).participants().len() && Self::active_at(
                    old(self).participants(),
                    j,
                ) && Self::stale_spec(
                    (#[trigger] old(self).participants()[j]).last_heartbeat,
                    old(self).heartbeat_timeout,
                    now,
                ) ==> final(self).participants()[j].status == ParticipantStatus::Dropped,
            // identities keep their registry places, so queue-position
            // reads across the pass speak of the same participants
            forall|j: int|
                0 <= j < old(self).participants().len() ==> (
                #[trigger] final(self).participants()[j]).id == old(self).participants()[j].id,
            // a participant within its window keeps its standing; the
            // only change open to it is being seated as current
            forall|j: int|
                0 <= j < old(self).participants().len() && !(Self::active_at(
                    old(self).participants(),
                    j,
                ) && Self::stale_spec(
                    (#[trigger] old(self).participants()[j]).last_heartbeat,
                    old(self).heartbeat_timeout,
                    now,
                )) ==> (final(self).participants()[j].status == old(self).participants()[j].status
                    || (old(self).participants()[j].status == ParticipantStatus::Queued && final(self).participants()[j].status == ParticipantStatus::Current)) && final(self).participants()[j].last_heartbeat == old(self).participants()[j].last_heartbeat,
            // a lock within its window, held by a participant within its
            // window, stays held
            forall|a: int|
                0 <= a < old(self).locks@.len() && !Self::stale_spec(
                    (#[trigger] old(self).locks@[a]).acquired_at,
                    old(self).lock_timeout,
                    now,
                ) && !Self::stale_spec(
                    old(self).participants()[old(self).locks@[a].holder as int].last_heartbeat,
                    old(self).heartbeat_timeout,
                    now,
                ) ==> lock_from(final(self).locks@, old(self).locks@[a]),
            // every queued participant ends with a position equal to its
            // rank plus one
            final(self).participants().len() == old(self).participants().len(),
            forall|j: int|
                0 <= j < final(self).participants().len() && queued_at(
                    final(self).participants(),
                    j,
                ) ==> (#[trigger] final(self).participants()[j]).target_round == Option::Some(
                    (final(self).round_height + 1 + queued_rank(final(self).participants(), j)) as u64,
                ),
            // queue positions never increase as rounds advance and
            // participants ahead finish or drop
            forall|j: int|
                0 <= j < old(self).participants().len() && queued_at(old(self).participants(), j)
                    && queued_at(final(self).participants(), j)
                    ==> #[trigger] final(self).queue_position_spec(j) <= old(self).queue_position_spec(j),
    {
        let ghost s0 = *self;
        self.sweep(now);
        let ghost s1 = *self;
        self.complete_round_if_due();
        let ghost s2 = *self;
        self.ensure_current_contributor();
        let ghost s3 = *self;
        self.assign_targets();
        proof {
            let ps0 = s0.participants();
            let ps1 = s1.participants();
            let ps2 = s2.participants();
            let ps3 = s3.participants();
            let ps4 = self.participants();
            // statuses only ever leave the queue during a pass
            assert forall|x: int|
                0 <= x < ps4.len() && #[trigger] queued_at(ps4, x) implies queued_at(ps3, x)
                && queued_at(ps2, x) && queued_at(ps1, x) && queued_at(ps0, x) by {
                assert(queued_at(ps3, x));
                assert(queued_at(ps2, x));
                assert(queued_at(ps1, x));
            }
            // whoever still takes part heard back within its window
            assert forall|j: int|
                0 <= j < ps4.len() && Self::active_at(ps4, j) implies !Self::stale_spec(
                (#[trigger] ps4[j]).last_heartbeat,
                self.heartbeat_timeout,
                now,
            ) by {
                assert(ps4[j].last_heartbeat == ps3[j].last_heartbeat);
                assert(ps3[j].last_heartbeat == ps2[j].last_heartbeat);
                assert(ps2[j].last_heartbeat == ps1[j].last_heartbeat);
                assert(Self::active_at(ps3, j));
                assert(Self::active_at(ps2, j));
                assert(Self::active_at(ps1, j));
            }
            // no lock outlived its window: the sweep released the stale
            // ones and an advance clears them all
            assert forall|a: int| 0 <= a < self.locks@.len() implies !Self::stale_spec(
                (#[trigger] self.locks@[a]).acquired_at,
                self.lock_timeout,
                now,
            ) by {
                assert(self.locks == s3.locks);
                if s1.round_complete_spec() && s1.round_height < MAX_ROUND_HEIGHT {
                    assert(s2.locks@.len() == 0);
                    assert(s3.locks@.len() == 0);
                } else {
                    assert(s2.locks == s1.locks);
                }
            }
            // every queued participant ends at its recomputed rank
            assert forall|j: int|
                0 <= j < ps4.len() && queued_at(ps4, j) implies (
            #[trigger] ps4[j]).target_round == Option::Some(
                (self.round_height + 1 + queued_rank(ps4, j)) as u64,
            ) by {
                assert(queued_at(ps3, j));
                crate::registry::lemma_count_queued_pointwise(ps4.take(j), ps3.take(j));
            }
            // whoever the sweep dropped stays dropped: later phases touch
            // only queued and current participants
            assert forall|j: int|
                0 <= j < ps0.len() && Self::active_at(ps0, j) && Self::stale_spec(
                (#[trigger] ps0[j]).last_heartbeat,
                self.heartbeat_timeout,
                now,
            ) implies ps4[j].status == ParticipantStatus::Dropped by {
                assert(ps1[j].status == ParticipantStatus::Dropped);
                assert(ps2[j].status == ParticipantStatus::Dropped);
                assert(ps3[j].status == ParticipantStatus::Dropped);
            }
            // positions never increase
            assert forall|j: int|
                0 <= j < ps0.len() && queued_at(ps0, j) && queued_at(ps4, j) implies #[trigger] self.queue_position_spec(
                j,
            ) <= s0.queue_position_spec(j) by {
                lemma_position_non_increase(s0, *self, j);
            }
            // identities and fresh participants' standing survive the
            // later phases pointwise
            lemma_completion_preserves(s1, s2);
            assert forall|j: int| 0 <= j < ps0.len() implies (#[trigger] ps4[j]).id == ps0[j].id
                by {
                assert(ps4[j].id == ps3[j].id);
                assert(ps3[j].id == ps2[j].id) by {
                    if !(count_current(ps2) == 0 && open_tasks_seq(s2.chunks@).len() > 0
                        && count_queued(ps2) > 0) {
                    }
                    assert(ps3[j].id == ps2[j].id || ps3[j].id == ps2[j].id);
                }
                assert(ps2[j].id == ps1[j].id);
                assert(ps1[j].id == ps0[j].id);
            }
            assert forall|j: int|
                0 <= j < ps0.len() && !(Self::active_at(ps0, j) && Self::stale_spec(
                (#[trigger] ps0[j]).last_heartbeat,
                self.heartbeat_timeout,
                now,
            )) implies (ps4[j].status == ps0[j].status || (ps0[j].status
                == ParticipantStatus::Queued && ps4[j].status == ParticipantStatus::Current))
                && ps4[j].last_heartbeat == ps0[j].last_heartbeat by {
                assert(ps1[j] == ps0[j]);
                assert(ps2[j].last_heartbeat == ps1[j].last_heartbeat);
                assert(ps2[j].status == ps1[j].status || (ps1[j].status
                    == ParticipantStatus::Queued && ps2[j].status == ParticipantStatus::Current));
                assert(ps3[j].last_heartbeat == ps2[j].last_heartbeat);
                assert(ps3[j].status == ps2[j].status || (ps2[j].status
                    == ParticipantStatus::Queued && ps3[j].status == ParticipantStatus::Current));
                assert(ps4[j].status == ps3[j].status && ps4[j].last_heartbeat
                    == ps3[j].last_heartbeat);
            }
            // a fresh lock with a fresh holder survives: the sweep keeps
            // it, and a held chunk is unverified, so the round cannot
            // have completed and cleared the locks
            assert forall|a: int|
                0 <= a < s0.locks@.len() && !Self::stale_spec(
                    (#[trigger] s0.locks@[a]).acquired_at,
                    self.lock_timeout,
                    now,
                ) && !Self::stale_spec(
                    ps0[s0.locks@[a].holder as int].last_heartbeat,
                    self.heartbeat_timeout,
                    now,
                ) implies lock_from(self.locks@, s0.locks@[a]) by {
                let l0 = s0.locks@[a];
                assert(lock_from(s1.locks@, l0));
                let b = choose|b: int| 0 <= b < s1.locks@.len() && l0 == #[trigger] s1.locks@[b];
                if s1.round_complete_spec() && s1.round_height < MAX_ROUND_HEIGHT {
                    assert(s1.chunks@[s1.locks@[b].chunk_id as int].verified_id
                        < CONTRIBUTIONS_PER_ROUND);
                    assert(s1.chunks@[s1.locks@[b].chunk_id as int].verified_id
                        >= CONTRIBUTIONS_PER_ROUND);
                }
                assert(s2.locks == s1.locks);
                assert(s3.locks == s2.locks);
                assert(self.locks == s3.locks);
                assert(self.locks@[b] == l0);
            }
        }
    }

    /// Whether some participant holds a lock on the chunk.
    pub fn is_locked(&self, chunk_id: u64) -> (r: bool)
        ensures
            r == self.is_locked_spec(chunk_id),
    {
        self.find_lock(chunk_id).is_some()
    }

    /// The identity of the participant holding the chunk's lock, if
    /// any.
    pub fn holder_of(&self, chunk_id: u64) -> (r: Option<String>)
        requires
            self.wf(),
        ensures
            match r {
                Some(id) => exists|a: int|
                    0 <= a < self.locks@.len() && (#[trigger] self.locks@[a]).chunk_id == chunk_id
                        && self.participants()[self.locks@[a].holder as int].id@ == id@,
                None => !self.is_locked_spec(chunk_id),
            },
    {
        match self.find_lock(chunk_id) {
            Some(a) => {
                let holder = self.locks[a].holder;
                Some(self.registry.participants[holder].id.clone())
            },
            None => None,
        }
    }

    /// Releases the lock the caller holds on the chunk.  Releasing a
    /// lock held by someone else, or no lock at all, fails and changes
    /// nothing.
    pub fn release(&mut self, participant: &Participant, chunk_id: u64) -> (r: Result<
        (),
        CoordinatorError,
    >)
        requires
            old(self).wf(),
        ensures
            final(self).wf(),
            final(self).same_but_locks(old(self)),
            match r {
                Err(e) => *final(self) == *old(self) && {
                    let ps = old(self).participants();
                    if !contains_id(ps, participant.address@) {
                        e == CoordinatorError::UnknownParticipant
                    } else if !old(self).is_locked_spec(chunk_id) {
                        e == CoordinatorError::ChunkNotLocked
                    } else {
                        e == CoordinatorError::UnauthorizedRelease && !old(self).locked_by_spec(
                            chunk_id,
                            crate::registry::index_of_id(ps, participant.address@),
                        )
                    }
                },
                Ok(()) => {
                    &&& old(self).locked_by_spec(
                        chunk_id,
                        crate::registry::index_of_id(
                            old(self).participants(),
                            participant.address@,
                        ),
                    )
                    &&& !final(self).is_locked_spec(chunk_id)
                    &&& forall|c2: u64|
                        c2 != chunk_id ==> #[trigger] final(self).is_locked_spec(c2) == old(
                            self,
                        ).is_locked_spec(c2)
                },
            },
    {
        let i = match self.registry.find(&participant.address) {
            Some(i) => i,
            None => {
                return Err(CoordinatorError::UnknownParticipant);
            },
        };
        proof {
            crate::registry::lemma_index_of_id_unique(
                self.participants(),
                participant.address@,
                i as int,
            );
        }
        match self.find_lock(chunk_id) {
            None => Err(CoordinatorError::ChunkNotLocked),
            Some(a) => {
                if self.locks[a].holder != i {
                    proof {
                        assert(!self.locked_by_spec(chunk_id, i as int)) by {
                            if self.locked_by_spec(chunk_id, i as int) {
                                let b = choose|b: int|
                                    0 <= b < self.locks@.len() && (
                                    #[trigger] self.locks@[b]).chunk_id == chunk_id
                                        && self.locks@[b].holder == i as int;
                                assert(b == a);
                            }
                        }
                    }
                    return Err(CoordinatorError::UnauthorizedRelease);
                }
                self.release_lock_on(chunk_id);
                Ok(())
            },
        }
    }

    /// Confirms that the caller's contribution for the chunk is
    /// uploaded and signed, and returns the locator it was written to.
    pub fn try_contribute(&self, participant: &Participant, chunk_id: u64) -> (r: Result<
        ContributionLocator,
        CoordinatorError,
    >)
        requires
            self.wf(),
        ensures
            match r {
                Err(e) => {
                    let ps = self.participants();
                    if !contains_id(ps, participant.address@) {
                        e == CoordinatorError::UnknownParticipant
                    } else if chunk_id >= self.n_chunks() {
                        e == CoordinatorError::WrongLocator
                    } else {
                        e == CoordinatorError::ContributionMissing && !(
                        self.chunks@[chunk_id as int].pending matches PendingContribution::Awaiting {
                            contributor,
                            ..
                        } && contributor == crate::registry::index_of_id(ps, participant.address@))
                    }
                },
                Ok(loc) => {
                    &&& self.chunks@[chunk_id as int].pending matches PendingContribution::Awaiting {
                        contributor,
                        contribution_id,
                        ..
                    } && contributor == crate::registry::index_of_id(
                        self.participants(),
                        participant.address@,
                    ) && loc == (ContributionLocator {
                        round_height: self.round_height,
                        chunk_id,
                        contribution_id,
                        is_verified: false,
                    })
                },
            },
    {
        let i = match self.registry.find(&participant.address) {
            Some(i) => i,
            None => {
                return Err(CoordinatorError::UnknownParticipant);
            },
        };
        proof {
            crate::registry::lemma_index_of_id_unique(
                self.participants(),
                participant.address@,
                i as int,
            );
        }
        if chunk_id >= self.chunks.len() as u64 {
            return Err(CoordinatorError::WrongLocator);
        }
        match &self.chunks[chunk_id as usize].pending {
            PendingContribution::Awaiting { contributor, contribution_id, .. } => {
                if *contributor == i {
                    Ok(
                        ContributionLocator {
                            round_height: self.round_height,
                            chunk_id,
                            contribution_id: *contribution_id,
                            is_verified: false,
                        },
                    )
                } else {
                    Err(CoordinatorError::ContributionMissing)
                }
            },
            _ => Err(CoordinatorError::ContributionMissing),
        }
    }

    /// The stored bytes under the given contribution locator: the
    /// challenge a contributor reads before transforming it.
    pub fn get_challenge(
        &self,
        round_height: u64,
        chunk_id: u64,
        contribution_id: u64,
        is_verified: bool,
    ) -> (r: Result<Vec<u8>, CoordinatorError>)
        ensures
            ({
                let loc = crate::storage::Locator::ContributionFile(
                    ContributionLocator { round_height, chunk_id, contribution_id, is_verified },
                );
                match r {
                    Ok(bytes) => self.storage.get_spec(loc) == Some(bytes@),
                    Err(e) => e == CoordinatorError::StorageObjectMissing && self.storage.get_spec(
                        loc,
                    ) is None,
                }
            }),
    {
        let loc = ContributionLocator::new(round_height, chunk_id, contribution_id, is_verified);
        match self.storage.reader(&crate::storage::Locator::ContributionFile(loc)) {
            Some(v) => Ok(clone_bytes(v)),
            None => Err(CoordinatorError::StorageObjectMissing),
        }
    }

    /// Whether the participant is the current contributor.
    pub fn is_current_contributor(&self, participant: &Participant) -> (r: bool)
        requires
            self.wf(),
        ensures
            r == exists|i: int|
                0 <= i < self.participants().len() && (#[trigger] self.participants()[i]).id@
                    == participant.address@ && self.participants()[i].status
                    == ParticipantStatus::Current,
    {
        match self.registry.find(&participant.address) {
            Some(i) => {
                let r = matches!(self.registry.participants[i].status, ParticipantStatus::Current);
                proof {
                    if r {
                        assert(self.participants()[i as int].id@ == participant.address@);
                    } else if exists|j: int|
                        0 <= j < self.participants().len() && (#[trigger] self.participants()[j]).id@
                            == participant.address@ && self.participants()[j].status
                            == ParticipantStatus::Current {
                        let j = choose|j: int|
                            0 <= j < self.participants().len() && (
                            #[trigger] self.participants()[j]).id@ == participant.address@
                                && self.participants()[j].status == ParticipantStatus::Current;
                        // identities are distinct, so j is the found index
                        assert(j == i as int);
                    }
                }
                r
            },
            None => {
                proof {
                    if exists|j: int|
                        0 <= j < self.participants().len() && (#[trigger] self.participants()[j]).id@
                            == participant.address@ && self.participants()[j].status
                            == ParticipantStatus::Current {
                        let j = choose|j: int|
                            0 <= j < self.participants().len() && (
                            #[trigger] self.participants()[j]).id@ == participant.address@
                                && self.participants()[j].status == ParticipantStatus::Current;
                        assert(contains_id(self.participants(), participant.address@));
                    }
                }
                false
            },
        }
    }

    /// The status of the participant with the given identity, if known.
    pub fn status_of(&self, participant: &Participant) -> (r: Option<ParticipantStatus>)
        ensures
            match r {
                Some(st) => exists|i: int|
                    0 <= i < self.participants().len() && (#[trigger] self.participants()[i]).id@
                        == participant.address@ && self.participants()[i].status == st,
                None => !contains_id(self.participants(), participant.address@),
            },
    {
        match self.registry.find(&participant.address) {
            Some(i) => {
                proof {
                    assert(self.participants()[i as int].id@ == participant.address@);
                }
                Some(self.registry.participants[i].status)
            },
            None => None,
        }
    }

    /// The number of participants waiting in the queue.
    pub fn number_of_queue_contributors(&self) -> (r: u64)
        requires
            self.wf(),
        ensures
            r == count_queued(self.participants()),
    {
        proof {
            lemma_count_queued_le_len(self.participants());
        }
        self.registry.queue_len() as u64
    }

    /// The current round height.
    pub fn current_round_height(&self) -> (r: u64)
        ensures
            r == self.round_height,
    {
        self.round_height
    }

    /// The tasks the participant has not yet uploaded.
    pub fn pending_tasks_of(&self, participant: &Participant) -> (r: Result<
        Vec<Task>,
        CoordinatorError,
    >)
        requires
            self.wf(),
        ensures
            match r {
                Ok(tasks) => contains_id(self.participants(), participant.address@) && tasks@
                    == self.participants()[crate::registry::index_of_id(
                    self.participants(),
                    participant.address@,
                )].pending_tasks@,
                Err(e) => e == CoordinatorError::UnknownParticipant && !contains_id(
                    self.participants(),
                    participant.address@,
                ),
            },
    {
        match self.registry.find(&participant.address) {
            Some(i) => {
                proof {
                    crate::registry::lemma_index_of_id_unique(
                        self.participants(),
                        participant.address@,
                        i as int,
                    );
                }
                Ok(clone_tasks(&self.registry.participants[i].pending_tasks))
            },
            None => Err(CoordinatorError::UnknownParticipant),
        }
    }

    /// Records an uploaded contribution-info record.
    pub fn write_contribution_info(&mut self, info: crate::objects::ContributionInfo)
        ensures
            final(self).contributions_info@ == old(self).contributions_info@.push(info),
            final(self).contributions_summary == old(self).contributions_summary,
            final(self).round_height == old(self).round_height,
            final(self).chunks == old(self).chunks,
            final(self).locks == old(self).locks,
            final(self).registry == old(self).registry,
            final(self).storage == old(self).storage,
            final(self).verifier == old(self).verifier,
            final(self).heartbeat_timeout == old(self).heartbeat_timeout,
            final(self).lock_timeout == old(self).lock_timeout,
            final(self).shut_down == old(self).shut_down,
    {
        self.contributions_info.push(info);
    }

    /// Appends the public summary entry of an uploaded record.
    pub fn update_contribution_summary(&mut self, entry: crate::objects::TrimmedContributionInfo)
        ensures
            final(self).contributions_summary@ == old(self).contributions_summary@.push(entry),
            final(self).contributions_info == old(self).contributions_info,
            final(self).round_height == old(self).round_height,
            final(self).chunks == old(self).chunks,
            final(self).locks == old(self).locks,
            final(self).registry == old(self).registry,
            final(self).storage == old(self).storage,
            final(self).verifier == old(self).verifier,
            final(self).heartbeat_timeout == old(self).heartbeat_timeout,
            final(self).lock_timeout == old(self).lock_timeout,
            final(self).shut_down == old(self).shut_down,
    {
        self.contributions_summary.push(entry);
    }

    /// The aggregated public summary of every uploaded record.
    pub fn get_contributions_info(&self) -> (r: Vec<crate::objects::TrimmedContributionInfo>)
        ensures
            r@.len() == self.contributions_summary@.len(),
            forall|j: int|
                0 <= j < r@.len() ==> (#[trigger] r@[j]).public_key@
                    == self.contributions_summary@[j].public_key@ && r@[j].round
                    == self.contributions_summary@[j].round,
    {
        let n = self.contributions_summary.len();
        let mut out: Vec<crate::objects::TrimmedContributionInfo> = Vec::new();
        let mut i: usize = 0;
        while i < n
            invariant
                i <= n,
                n == self.contributions_summary@.len(),
                out@.len() == i,
                forall|j: int|
                    0 <= j < i ==> (#[trigger] out@[j]).public_key@
                        == self.contributions_summary@[j].public_key@ && out@[j].round
                        == self.contributions_summary@[j].round,
            decreases n - i,
        {
            let entry = &self.contributions_summary[i];
            out.push(
                crate::objects::TrimmedContributionInfo {
                    public_key: entry.public_key.clone(),
                    round: entry.round,
                },
            );
            i = i + 1;
        }
        out
    }

    /// Stops the ceremony: later maintenance finds the flag set.
    pub fn shutdown(&mut self) -> (r: Result<(), CoordinatorError>)
        ensures
            r is Ok,
            final(self).shut_down,
            final(self).contributions_info == old(self).contributions_info,
            final(self).contributions_summary == old(self).contributions_summary,
            final(self).round_height == old(self).round_height,
            final(self).chunks == old(self).chunks,
            final(self).locks == old(self).locks,
            final(self).registry == old(self).registry,
            final(self).storage == old(self).storage,
            final(self).verifier == old(self).verifier,
            final(self).heartbeat_timeout == old(self).heartbeat_timeout,
            final(self).lock_timeout == old(self).lock_timeout,
    {
        self.shut_down = true;
        Ok(())
    }

    /// Whether the ceremony has been stopped.
    pub fn is_shut_down(&self) -> (r: bool)
        ensures
            r == self.shut_down,
    {
        self.shut_down
    }

    /// The index of the lock on chunk `c`, if one is held.
    fn find_lock(&self, c: u64) -> (r: Option<usize>)
        ensures
            match r {
                Some(a) => a < self.locks@.len() && self.locks@[a as int].chunk_id == c,
                None => !self.is_locked_spec(c),
            },
    {
        let n = self.locks.len();
        let mut a: usize = 0;
        while a < n
            invariant
                a <= n,
                n == self.locks@.len(),
                forall|k: int| 0 <= k < a ==> (#[trigger] self.locks@[k]).chunk_id != c,
            decreases n - a,
        {
            if self.locks[a].chunk_id == c {
                return Some(a);
            }
            a = a + 1;
        }
        None
    }
}

/// Whether `l` is one of the locks in `pre`.
pub open spec fn lock_from(pre: Seq<Lock>, l: Lock) -> bool {
    exists|a2: int| 0 <= a2 < pre.len() && l == #[trigger] pre[a2]
}

/// After removing the one lock on chunk `c` (or nothing), the lock
/// list still has at most one lock per chunk, every lock comes from
/// the old list, and every other chunk's lock state is unchanged.
proof fn lemma_release_step(pre: Seq<Lock>, post: Seq<Lock>, c: u64)
    requires
        forall|a: int, b: int|
            0 <= a < b < pre.len() ==> (#[trigger] pre[a]).chunk_id != (#[trigger] pre[b]).chunk_id,
        (exists|w: int| 0 <= w < pre.len() && (#[trigger] pre[w]).chunk_id == c && post == pre.remove(w))
            || post == pre,
    ensures
        forall|a: int, b: int|
            0 <= a < b < post.len() ==> (#[trigger] post[a]).chunk_id != (
            #[trigger] post[b]).chunk_id,
        forall|a: int| 0 <= a < post.len() ==> lock_from(pre, #[trigger] post[a]),
{
    if post == pre {
        assert forall|a: int| 0 <= a < post.len() implies lock_from(pre, #[trigger] post[a]) by {
            assert(post[a] == pre[a]);
        }
    } else {
        let w = choose|w: int|
            0 <= w < pre.len() && (#[trigger] pre[w]).chunk_id == c && post == pre.remove(w);
        assert forall|a: int| 0 <= a < post.len() implies lock_from(pre, #[trigger] post[a]) by {
            if a < w {
                assert(post[a] == pre[a]);
            } else {
                assert(post[a] == pre[a + 1]);
            }
        }
        assert forall|a: int, b: int| 0 <= a < b < post.len() implies (
        #[trigger] post[a]).chunk_id != (#[trigger] post[b]).chunk_id by {
            assert(post[a] == if a < w {
                pre[a]
            } else {
                pre[a + 1]
            });
            assert(post[b] == if b < w {
                pre[b]
            } else {
                pre[b + 1]
            });
        }
    }
}

/// For all chunks, at any instant, at most one lock exists: two
/// distinct active locks never name the same chunk.
pub proof fn lemma_at_most_one_lock(c: &Coordinator, a: int, b: int)
    requires
        c.wf(),
        0 <= a < c.locks@.len(),
        0 <= b < c.locks@.len(),
        a != b,
    ensures
        c.locks@[a].chunk_id != c.locks@[b].chunk_id,
{
}

/// Per chunk, the verified contribution ids are strictly increasing
/// and gap-free: the id verified `i`-th is exactly `i + 1`.
pub proof fn lemma_contribution_ids_gap_free(c: &Coordinator, ch: int)
    requires
        c.wf(),
        0 <= ch < c.n_chunks(),
    ensures
        c.chunks@[ch].history@.len() == c.chunks@[ch].verified_id,
        forall|i: int|
            0 <= i < c.chunks@[ch].history@.len() ==> #[trigger] c.chunks@[ch].history@[i] == i
                + 1,
        forall|i: int, j: int|
            0 <= i < j < c.chunks@[ch].history@.len() ==> c.chunks@[ch].history@[i]
                < c.chunks@[ch].history@[j],
{
    assert(c.chunks@[ch].history@ == Seq::new(
        c.chunks@[ch].verified_id as nat,
        |i: int| (i + 1) as u64,
    ));
}

/// At a fresh round every chunk is open, so a newly promoted
/// participant is handed one task per chunk, each asking for the
/// round's first contribution.
pub proof fn lemma_open_tasks_full(chunks: Seq<ChunkState>)
    requires
        forall|c: int|
            0 <= c < chunks.len() ==> chunk_open(#[trigger] chunks[c]) && chunks[c].verified_id
                == 0,
    ensures
        open_tasks_seq(chunks).len() == chunks.len(),
        forall|c: int|
            0 <= c < chunks.len() ==> #[trigger] open_tasks_seq(chunks)[c] == (Task {
                chunk_id: c as u64,
                contribution_id: 1,
            }),
    decreases chunks.len(),
{
    if chunks.len() > 0 {
        assert(forall|c: int|
            0 <= c < chunks.len() - 1 ==> #[trigger] chunks.drop_last()[c] == chunks[c]);
        lemma_open_tasks_full(chunks.drop_last());
        assert(chunks.last() == chunks[chunks.len() - 1]);
    }
}

/// A promotion changes nothing but the seated participant's status,
/// tasks and target: identities, heartbeats and everyone else's
/// standing survive, and only a queued participant is seated.
proof fn lemma_promotion_preserves(
    pre: Seq<ParticipantInfo>,
    post: Seq<ParticipantInfo>,
    p: int,
    tasks: Seq<Task>,
)
    requires
        is_promotion_of(pre, post, p, tasks),
    ensures
        post.len() == pre.len(),
        forall|j: int|
            0 <= j < pre.len() ==> (#[trigger] post[j]).id == pre[j].id && post[j].last_heartbeat
                == pre[j].last_heartbeat && (post[j].status == pre[j].status || (pre[j].status
                == ParticipantStatus::Queued && post[j].status == ParticipantStatus::Current)),
{
}

/// The round-completion step changes no identity and no heartbeat,
/// and the only status change it makes is seating a queued
/// participant.
proof fn lemma_completion_preserves(mid: Coordinator, post: Coordinator)
    requires
        is_completion_of(mid, post),
    ensures
        post.participants().len() == mid.participants().len(),
        forall|j: int|
            0 <= j < mid.participants().len() ==> (#[trigger] post.participants()[j]).id
                == mid.participants()[j].id && post.participants()[j].last_heartbeat
                == mid.participants()[j].last_heartbeat && (post.participants()[j].status
                == mid.participants()[j].status || (mid.participants()[j].status
                == ParticipantStatus::Queued && post.participants()[j].status
                == ParticipantStatus::Current)),
{
    if mid.round_complete_spec() && mid.round_height < MAX_ROUND_HEIGHT {
        let cleared = with_cleared_targets(mid.participants());
        if count_current(cleared) == 0 && open_tasks_seq(post.chunks@).len() > 0 && count_queued(
            cleared,
        ) > 0 {
            let q = choose|q: int|
                first_queued_at(cleared, q) && is_promotion_of(
                    cleared,
                    post.participants(),
                    q,
                    open_tasks_seq(post.chunks@),
                );
            lemma_promotion_preserves(cleared, post.participants(), q, open_tasks_seq(post.chunks@));
        }
    }
}

/// A queued participant whose rank has not grown, and whose target was
/// freshly recomputed from its rank, sits no further back than before:
/// queue positions are non-increasing as rounds advance and
/// participants ahead finish or drop.
pub proof fn lemma_position_non_increase(s0: Coordinator, s4: Coordinator, j: int)
    requires
        s0.wf(),
        s4.wf(),
        s4.participants().len() == s0.participants().len(),
        0 <= j < s0.participants().len(),
        queued_at(s0.participants(), j),
        queued_at(s4.participants(), j),
        forall|x: int|
            0 <= x < s4.participants().len() && queued_at(s4.participants(), x) ==> queued_at(
                s0.participants(),
                x,
            ),
        s4.participants()[j].target_round == Option::Some(
            (s4.round_height + 1 + queued_rank(s4.participants(), j)) as u64,
        ),
    ensures
        s4.queue_position_spec(j) <= s0.queue_position_spec(j),
{
    crate::registry::lemma_rank_mono(s0.participants(), s4.participants(), j);
    crate::registry::lemma_count_queued_le_len(s4.participants().take(j));
    assert(s4.participants().take(j).len() == j);
    match s0.participants()[j].target_round {
        Option::Some(t) => {
            assert(t >= s0.round_height + 1 + queued_rank(s0.participants(), j));
        },
        Option::None => {
            crate::registry::lemma_rank_lt_count(s0.participants(), j);
        },
    }
}

/// A copy of the given task list.
pub fn clone_tasks(v: &Vec<Task>) -> (r: Vec<Task>)
    ensures
        r@ == v@,
{
    let mut out: Vec<Task> = Vec::new();
    let n = v.len();
    let mut i: usize = 0;
    while i < n
        invariant
            i <= n,
            n == v@.len(),
            out@ == v@.take(i as int),
        decreases n - i,
    {
        out.push(v[i]);
        proof {
            assert(v@.take(i as int).push(v@[i as int]) =~= v@.take(i as int + 1));
        }
        i = i + 1;
    }
    proof {
        assert(v@.take(n as int) =~= v@);
    }
    out
}

/// Whether two byte vectors hold the same bytes.
pub fn bytes_equal(a: &Vec<u8>, b: &Vec<u8>) -> (r: bool)
    ensures
        r == (a@ == b@),
{
    if a.len() != b.len() {
        return false;
    }
    let n = a.len();
    let mut i: usize = 0;
    while i < n
        invariant
            i <= n,
            n == a@.len() == b@.len(),
            forall|j: int| 0 <= j < i ==> a@[j] == b@[j],
        decreases n - i,
    {
        if a[i] != b[i] {
            return false;
        }
        i = i + 1;
    }
    proof {
        assert(a@ =~= b@);
    }
    true
}

} // verus!
