//! The participant registry: who is known to the ceremony, each
//! participant's role in the queue, its pending work and its liveness.
//!
//! The registry is append-only: a participant that leaves the queue is
//! marked `Dropped` or `Finished`, never removed, so a participant's
//! index is stable and the join order is the index order.

use crate::errors::CoordinatorError;
use crate::objects::Task;
use vstd::prelude::*;

verus! {

/// Where a participant stands in its lifecycle.
#[derive(Clone, Copy, PartialEq, Eq, Structural, Debug)]
pub enum ParticipantStatus {
    /// Waiting for a round slot to open.
    Queued,
    /// Holder of the current round slot; may lock chunks and contribute.
    Current,
    /// All of its tasks have been verified.
    Finished,
    /// Evicted after a liveness timeout; its work was requeued.
    Dropped,
}

/// Everything the coordinator tracks about one participant.
pub struct ParticipantInfo {
    /// The participant's identity: its public key string.
    pub id: String,
    pub status: ParticipantStatus,
    /// Tasks not yet uploaded, consumed in increasing chunk-id order.
    pub pending_tasks: Vec<Task>,
    /// Tasks uploaded and awaiting verification.
    pub uploaded_tasks: Vec<Task>,
    /// The instant of the last heartbeat or state-changing request.
    pub last_heartbeat: u64,
    /// The round at which the participant will become current, once the
    /// maintenance pass has assigned one.
    pub target_round: Option<u64>,
}

/// The most participants a single ceremony will ever register; a
/// bound that keeps queue-position arithmetic well inside `u64`.
pub const MAX_PARTICIPANTS: u64 = 0x100000000;

/// Whether the participant at `i` is queued.
pub open spec fn queued_at(ps: Seq<ParticipantInfo>, i: int) -> bool {
    ps[i].status == ParticipantStatus::Queued
}

/// How many of the given participants are queued.
pub open spec fn count_queued(ps: Seq<ParticipantInfo>) -> nat
    decreases ps.len(),
{
    if ps.len() == 0 {
        0
    } else {
        count_queued(ps.drop_last()) + if ps.last().status == ParticipantStatus::Queued {
            1nat
        } else {
            0nat
        }
    }
}

/// How many of the given participants are current.
pub open spec fn count_current(ps: Seq<ParticipantInfo>) -> nat
    decreases ps.len(),
{
    if ps.len() == 0 {
        0
    } else {
        count_current(ps.drop_last()) + if ps.last().status == ParticipantStatus::Current {
            1nat
        } else {
            0nat
        }
    }
}

/// The number of participants queued ahead of index `i`: the rank of
/// `i` in the queue's join order.
pub open spec fn queued_rank(ps: Seq<ParticipantInfo>, i: int) -> nat {
    count_queued(ps.take(i))
}

/// No two participants share an identity.
pub open spec fn ids_distinct(ps: Seq<ParticipantInfo>) -> bool {
    forall|i: int, j: int| 0 <= i < j < ps.len() ==> ps[i].id@ != ps[j].id@
}

/// Some participant carries the given identity.
pub open spec fn contains_id(ps: Seq<ParticipantInfo>, id: Seq<char>) -> bool {
    exists|i: int| 0 <= i < ps.len() && ps[i].id@ == id
}

/// The index of the participant with the given identity; meaningful
/// only where `contains_id` holds and identities are distinct.
pub open spec fn index_of_id(ps: Seq<ParticipantInfo>, id: Seq<char>) -> int {
    choose|i: int| 0 <= i < ps.len() && ps[i].id@ == id
}

/// With distinct identities, any index carrying `id` is the index
/// `index_of_id` names.
pub proof fn lemma_index_of_id_unique(ps: Seq<ParticipantInfo>, id: Seq<char>, i: int)
    requires
        ids_distinct(ps),
        0 <= i < ps.len(),
        ps[i].id@ == id,
    ensures
        index_of_id(ps, id) == i,
{
    let j = index_of_id(ps, id);
    assert(0 <= j < ps.len() && ps[j].id@ == id);
}

pub proof fn lemma_count_queued_le_len(ps: Seq<ParticipantInfo>)
    ensures
        count_queued(ps) <= ps.len(),
    decreases ps.len(),
{
    if ps.len() > 0 {
        lemma_count_queued_le_len(ps.drop_last());
    }
}

/// Counting one more prefix element adds that element's contribution.
pub proof fn lemma_count_queued_take_succ(ps: Seq<ParticipantInfo>, i: int)
    requires
        0 <= i < ps.len(),
    ensures
        count_queued(ps.take(i + 1)) == count_queued(ps.take(i)) + if queued_at(ps, i) {
            1nat
        } else {
            0nat
        },
{
    let t = ps.take(i + 1);
    assert(t.last() == ps[i]);
    assert(t.drop_last() =~= ps.take(i));
}

/// Counts agree on sequences whose statuses agree pointwise.
pub proof fn lemma_count_queued_pointwise(a: Seq<ParticipantInfo>, b: Seq<ParticipantInfo>)
    requires
        a.len() == b.len(),
        forall|i: int| 0 <= i < a.len() ==> a[i].status == b[i].status,
    ensures
        count_queued(a) == count_queued(b),
    decreases a.len(),
{
    if a.len() > 0 {
        lemma_count_queued_pointwise(a.drop_last(), b.drop_last());
    }
}

/// Updating one participant changes the count by that participant's
/// contribution.
pub proof fn lemma_count_queued_update(ps: Seq<ParticipantInfo>, k: int, x: ParticipantInfo)
    requires
        0 <= k < ps.len(),
    ensures
        count_queued(ps.update(k, x)) == count_queued(ps) - (if queued_at(ps, k) {
            1int
        } else {
            0int
        }) + (if x.status == ParticipantStatus::Queued {
            1int
        } else {
            0int
        }),
    decreases ps.len(),
{
    let u = ps.update(k, x);
    if k == ps.len() - 1 {
        assert(u.last() == x);
        assert(u.drop_last() =~= ps.drop_last());
    } else {
        assert(u.last() == ps.last());
        assert(u.drop_last() =~= ps.drop_last().update(k, x));
        lemma_count_queued_update(ps.drop_last(), k, x);
    }
}

/// Current counts agree on sequences whose statuses agree pointwise.
pub proof fn lemma_count_current_pointwise(a: Seq<ParticipantInfo>, b: Seq<ParticipantInfo>)
    requires
        a.len() == b.len(),
        forall|i: int| 0 <= i < a.len() ==> a[i].status == b[i].status,
    ensures
        count_current(a) == count_current(b),
    decreases a.len(),
{
    if a.len() > 0 {
        lemma_count_current_pointwise(a.drop_last(), b.drop_last());
    }
}

/// Nobody is current exactly when the current count is zero.
pub proof fn lemma_count_current_zero_iff(ps: Seq<ParticipantInfo>)
    ensures
        (count_current(ps) == 0) <==> (forall|j: int|
            0 <= j < ps.len() ==> (#[trigger] ps[j]).status != ParticipantStatus::Current),
    decreases ps.len(),
{
    if ps.len() > 0 {
        lemma_count_current_zero_iff(ps.drop_last());
        assert(ps.last() == ps[ps.len() - 1]);
        assert(forall|j: int| 0 <= j < ps.len() - 1 ==> ps.drop_last()[j] == ps[j]);
    }
}

/// Nobody is queued exactly when the queued count is zero.
pub proof fn lemma_count_queued_zero_iff(ps: Seq<ParticipantInfo>)
    ensures
        (count_queued(ps) == 0) <==> (forall|j: int|
            0 <= j < ps.len() ==> (#[trigger] ps[j]).status != ParticipantStatus::Queued),
    decreases ps.len(),
{
    if ps.len() > 0 {
        lemma_count_queued_zero_iff(ps.drop_last());
        assert(ps.last() == ps[ps.len() - 1]);
        assert(forall|j: int| 0 <= j < ps.len() - 1 ==> ps.drop_last()[j] == ps[j]);
    }
}

/// A queued participant's rank is strictly below the queue length.
pub proof fn lemma_rank_lt_count(ps: Seq<ParticipantInfo>, i: int)
    requires
        0 <= i < ps.len(),
        queued_at(ps, i),
    ensures
        queued_rank(ps, i) < count_queued(ps),
    decreases ps.len(),
{
    if i == ps.len() - 1 {
        assert(ps.take(i) =~= ps.drop_last());
        lemma_count_queued_le_len(ps.take(i));
        assert(ps.last() == ps[i]);
    } else {
        lemma_rank_lt_count(ps.drop_last(), i);
        assert(ps.drop_last().take(i) =~= ps.take(i));
    }
}

/// A current participant makes the count at least one.
pub proof fn lemma_count_current_at_least(ps: Seq<ParticipantInfo>, a: int)
    requires
        0 <= a < ps.len(),
        ps[a].status == ParticipantStatus::Current,
    ensures
        count_current(ps) >= 1,
    decreases ps.len(),
{
    if a == ps.len() - 1 {
        assert(ps.last() == ps[a]);
    } else {
        lemma_count_current_at_least(ps.drop_last(), a);
    }
}

/// Two distinct current participants would make the count two.
pub proof fn lemma_two_current(ps: Seq<ParticipantInfo>, a: int, b: int)
    requires
        0 <= a < b < ps.len(),
        ps[a].status == ParticipantStatus::Current,
        ps[b].status == ParticipantStatus::Current,
    ensures
        count_current(ps) >= 2,
    decreases ps.len(),
{
    if b == ps.len() - 1 {
        assert(ps.last() == ps[b]);
        lemma_count_current_at_least(ps.drop_last(), a);
    } else {
        lemma_two_current(ps.drop_last(), a, b);
    }
}

/// A pointwise implication between queued predicates bounds the counts.
pub proof fn lemma_count_queued_mono(a: Seq<ParticipantInfo>, b: Seq<ParticipantInfo>)
    requires
        a.len() == b.len(),
        forall|i: int| 0 <= i < b.len() && queued_at(b, i) ==> queued_at(a, i),
    ensures
        count_queued(b) <= count_queued(a),
    decreases a.len(),
{
    if a.len() > 0 {
        assert(a.last() == a[a.len() - 1]);
        assert(b.last() == b[b.len() - 1]);
        assert forall|i: int|
            0 <= i < b.len() - 1 && queued_at(b.drop_last(), i) implies queued_at(
            a.drop_last(),
            i,
        ) by {
            assert(b.drop_last()[i] == b[i]);
            assert(queued_at(b, i));
            assert(queued_at(a, i));
            assert(a.drop_last()[i] == a[i]);
        }
        lemma_count_queued_mono(a.drop_last(), b.drop_last());
        if b.last().status == ParticipantStatus::Queued {
            assert(queued_at(b, a.len() - 1));
            assert(queued_at(a, a.len() - 1));
        }
    }
}

/// The same, for ranks: a queue that only lost members has lower ranks.
pub proof fn lemma_rank_mono(a: Seq<ParticipantInfo>, b: Seq<ParticipantInfo>, j: int)
    requires
        a.len() == b.len(),
        forall|i: int| 0 <= i < b.len() && queued_at(b, i) ==> queued_at(a, i),
        0 <= j <= a.len(),
    ensures
        queued_rank(b, j) <= queued_rank(a, j),
{
    assert(a.take(j).len() == b.take(j).len());
    assert forall|i: int| 0 <= i < b.take(j).len() && queued_at(b.take(j), i) implies queued_at(
        a.take(j),
        i,
    ) by {
        assert(b.take(j)[i] == b[i]);
        assert(queued_at(b, i));
        assert(queued_at(a, i));
        assert(a.take(j)[i] == a[i]);
    }
    lemma_count_queued_mono(a.take(j), b.take(j));
}

/// The same, for the count of current participants.
pub proof fn lemma_count_current_update(ps: Seq<ParticipantInfo>, k: int, x: ParticipantInfo)
    requires
        0 <= k < ps.len(),
    ensures
        count_current(ps.update(k, x)) == count_current(ps) - (if ps[k].status
            == ParticipantStatus::Current {
            1int
        } else {
            0int
        }) + (if x.status == ParticipantStatus::Current {
            1int
        } else {
            0int
        }),
    decreases ps.len(),
{
    let u = ps.update(k, x);
    if k == ps.len() - 1 {
        assert(u.last() == x);
        assert(u.drop_last() =~= ps.drop_last());
    } else {
        assert(u.last() == ps.last());
        assert(u.drop_last() =~= ps.drop_last().update(k, x));
        lemma_count_current_update(ps.drop_last(), k, x);
    }
}

/// A queued participant's rank changes only when someone ahead of it
/// changes status: an update at `k` with `k >= i` leaves the rank at
/// `i` alone, and an update that takes a participant ahead out of the
/// queue lowers it.
pub proof fn lemma_rank_update(ps: Seq<ParticipantInfo>, k: int, x: ParticipantInfo, i: int)
    requires
        0 <= k < ps.len(),
        0 <= i <= ps.len(),
    ensures
        k >= i ==> queued_rank(ps.update(k, x), i) == queued_rank(ps, i),
        k < i ==> queued_rank(ps.update(k, x), i) == queued_rank(ps, i) - (if queued_at(ps, k) {
            1int
        } else {
            0int
        }) + (if x.status == ParticipantStatus::Queued {
            1int
        } else {
            0int
        }),
{
    let u = ps.update(k, x);
    if k >= i {
        assert(u.take(i) =~= ps.take(i));
    } else {
        assert(u.take(i) =~= ps.take(i).update(k, x));
        lemma_count_queued_update(ps.take(i), k, x);
    }
}

/// The uploaded-task list of the participant at `i`, as a sequence.
pub open spec fn uploaded_at(ps: Seq<ParticipantInfo>, i: int) -> Seq<Task> {
    ps[i].uploaded_tasks@
}

/// The registry of every participant the ceremony has seen.
pub struct ParticipantRegistry {
    pub participants: Vec<ParticipantInfo>,
}

impl ParticipantRegistry {
    /// Well-formed: identities are distinct and at most one participant
    /// holds the current round slot.
    pub open spec fn wf(&self) -> bool {
        &&& ids_distinct(self.participants@)
        &&& count_current(self.participants@) <= 1
        &&& self.participants@.len() <= MAX_PARTICIPANTS
    }

    pub open spec fn len_spec(&self) -> nat {
        self.participants@.len()
    }

    /// The queue length: how many participants are waiting.
    pub open spec fn queue_len_spec(&self) -> nat {
        count_queued(self.participants@)
    }

    pub open spec fn status_at(&self, i: int) -> ParticipantStatus {
        self.participants@[i].status
    }

    /// An empty registry.
    pub fn new() -> (r: ParticipantRegistry)
        ensures
            r.participants@.len() == 0,
            r.wf(),
    {
        ParticipantRegistry { participants: Vec::new() }
    }

    /// The index of the participant with the given identity.
    pub fn find(&self, id: &String) -> (r: Option<usize>)
        ensures
            match r {
                Some(i) => i < self.participants@.len() && self.participants@[i as int].id@ == id@,
                None => !contains_id(self.participants@, id@),
            },
    {
        let n = self.participants.len();
        let mut i: usize = 0;
        while i < n
            invariant
                i <= n,
                n == self.participants@.len(),
                forall|j: int| 0 <= j < i ==> self.participants@[j].id@ != id@,
            decreases n - i,
        {
            if self.participants[i].id == *id {
                return Some(i);
            }
            i = i + 1;
        }
        None
    }

    /// Admits an identity to the queue.  A new identity joins at the
    /// tail; a previously dropped identity rejoins in its old place
    /// with a clean slate — being dropped is recoverable.  An identity
    /// that is queued, current or finished is rejected: duplicates
    /// never enter the queue twice.
    pub fn add(&mut self, id: &String, now: u64) -> (r: Result<usize, CoordinatorError>)
        requires
            old(self).wf(),
        ensures
            final(self).wf(),
            match r {
                Ok(i) => if contains_id(old(self).participants@, id@) {
                    // a dropped identity rejoins in place
                    &&& i as int == index_of_id(old(self).participants@, id@)
                    &&& old(self).participants@[i as int].status == ParticipantStatus::Dropped
                    &&& final(self).participants@.len() == old(self).participants@.len()
                    &&& forall|j: int|
                        0 <= j < old(self).participants@.len() && j != i ==> final(self).participants@[j] == old(self).participants@[j]
                    &&& final(self).participants@[i as int].id == old(self).participants@[i as int].id
                    &&& final(self).participants@[i as int].status == ParticipantStatus::Queued
                    &&& final(self).participants@[i as int].pending_tasks@ == Seq::<Task>::empty()
                    &&& final(self).participants@[i as int].uploaded_tasks@ == Seq::<
                        Task,
                    >::empty()
                    &&& final(self).participants@[i as int].last_heartbeat == now
                    &&& final(self).participants@[i as int].target_round is None
                } else {
                    &&& i == old(self).participants@.len()
                    &&& final(self).participants@.len() == old(self).participants@.len() + 1
                    &&& forall|j: int|
                        0 <= j < old(self).participants@.len() ==> final(self).participants@[j]
                            == old(self).participants@[j]
                    &&& final(self).participants@.last().id@ == id@
                    &&& final(self).participants@.last().status == ParticipantStatus::Queued
                    &&& final(self).participants@.last().pending_tasks@ == Seq::<Task>::empty()
                    &&& final(self).participants@.last().uploaded_tasks@ == Seq::<Task>::empty()
                    &&& final(self).participants@.last().last_heartbeat == now
                    &&& final(self).participants@.last().target_round is None
                },
                Err(e) => {
                    &&& *final(self) == *old(self)
                    &&& if contains_id(old(self).participants@, id@) {
                        e == CoordinatorError::AlreadyInQueue && old(self).participants@[index_of_id(old(self).participants@, id@)].status
                            != ParticipantStatus::Dropped
                    } else {
                        e == CoordinatorError::QueueFull && old(self).participants@.len()
                            >= MAX_PARTICIPANTS
                    }
                },
            },
    {
        match self.find(id) {
            Some(i) => {
                proof {
                    lemma_index_of_id_unique(self.participants@, id@, i as int);
                    assert(contains_id(self.participants@, id@)) by {
                        assert(self.participants@[i as int].id@ == id@);
                    }
                }
                if !matches!(self.participants[i].status, ParticipantStatus::Dropped) {
                    return Err(CoordinatorError::AlreadyInQueue);
                }
                let ghost pre = self.participants@;
                self.set_status(i, ParticipantStatus::Queued);
                self.set_tasks(i, Vec::new(), Vec::new());
                self.set_heartbeat(i, now);
                self.set_target(i, None);
                proof {
                    let ps = self.participants@;
                    assert(forall|j: int| 0 <= j < ps.len() && j != i ==> ps[j] == pre[j]);
                    assert(ids_distinct(ps)) by {
                        assert(forall|j: int| 0 <= j < ps.len() ==> ps[j].id == pre[j].id);
                    }
                    lemma_count_current_update(
                        pre,
                        i as int,
                        ParticipantInfo { status: ParticipantStatus::Queued, ..pre[i as int] },
                    );
                    lemma_count_current_pointwise(
                        pre.update(
                            i as int,
                            ParticipantInfo { status: ParticipantStatus::Queued, ..pre[i as int] },
                        ),
                        ps,
                    );
                }
                Ok(i)
            },
            None => {
                if self.participants.len() as u64 >= MAX_PARTICIPANTS {
                    return Err(CoordinatorError::QueueFull);
                }
                let ghost pre = self.participants@;
                let info = ParticipantInfo {
                    id: id.clone(),
                    status: ParticipantStatus::Queued,
                    pending_tasks: Vec::new(),
                    uploaded_tasks: Vec::new(),
                    last_heartbeat: now,
                    target_round: None,
                };
                self.participants.push(info);
                proof {
                    let ps = self.participants@;
                    assert(ps.drop_last() =~= pre);
                    assert forall|i: int, j: int| 0 <= i < j < ps.len() implies ps[i].id@
                        != ps[j].id@ by {
                        if j == ps.len() - 1 {
                            assert(ps[i] == pre[i]);
                        }
                    }
                    lemma_count_current_push(pre, ps.last());
                }
                Ok(self.participants.len() - 1)
            },
        }
    }

    /// The queue length: how many participants are waiting.
    pub fn queue_len(&self) -> (r: usize)
        ensures
            r == self.queue_len_spec(),
    {
        let n = self.participants.len();
        let mut i: usize = 0;
        let mut c: usize = 0;
        proof {
            assert(self.participants@.take(0) =~= Seq::<ParticipantInfo>::empty());
        }
        while i < n
            invariant
                i <= n,
                n == self.participants@.len(),
                c == count_queued(self.participants@.take(i as int)),
                c <= i,
            decreases n - i,
        {
            proof {
                lemma_count_queued_take_succ(self.participants@, i as int);
            }
            if matches!(self.participants[i].status, ParticipantStatus::Queued) {
                c = c + 1;
            }
            i = i + 1;
        }
        proof {
            assert(self.participants@.take(n as int) =~= self.participants@);
        }
        c
    }

    /// The rank of the participant at `i`: how many are queued ahead
    /// of it.
    pub fn rank_of(&self, i: usize) -> (r: usize)
        requires
            i <= self.participants@.len(),
        ensures
            r == queued_rank(self.participants@, i as int),
    {
        let mut j: usize = 0;
        let mut c: usize = 0;
        proof {
            assert(self.participants@.take(0) =~= Seq::<ParticipantInfo>::empty());
        }
        while j < i
            invariant
                j <= i <= self.participants@.len(),
                c == count_queued(self.participants@.take(j as int)),
                c <= j,
            decreases i - j,
        {
            proof {
                lemma_count_queued_take_succ(self.participants@, j as int);
            }
            if matches!(self.participants[j].status, ParticipantStatus::Queued) {
                c = c + 1;
            }
            j = j + 1;
        }
        c
    }

    /// Replaces the status of the participant at `i`.
    pub fn set_status(&mut self, i: usize, st: ParticipantStatus)
        requires
            i < old(self).participants@.len(),
        ensures
            final(self).participants@ == old(self).participants@.update(
                i as int,
                ParticipantInfo { status: st, ..old(self).participants@[i as int] },
            ),
    {
        let p = vstd::std_specs::vec::vec_index_mut(&mut self.participants, i);
        p.status = st;
    }

    /// Replaces the heartbeat instant of the participant at `i`.
    pub fn set_heartbeat(&mut self, i: usize, now: u64)
        requires
            i < old(self).participants@.len(),
        ensures
            final(self).participants@ == old(self).participants@.update(
                i as int,
                ParticipantInfo { last_heartbeat: now, ..old(self).participants@[i as int] },
            ),
    {
        let p = vstd::std_specs::vec::vec_index_mut(&mut self.participants, i);
        p.last_heartbeat = now;
    }

    /// Replaces the target round of the participant at `i`.
    pub fn set_target(&mut self, i: usize, target: Option<u64>)
        requires
            i < old(self).participants@.len(),
        ensures
            final(self).participants@ == old(self).participants@.update(
                i as int,
                ParticipantInfo { target_round: target, ..old(self).participants@[i as int] },
            ),
    {
        let p = vstd::std_specs::vec::vec_index_mut(&mut self.participants, i);
        p.target_round = target;
    }

    /// Replaces both task lists of the participant at `i`.
    pub fn set_tasks(&mut self, i: usize, pending: Vec<Task>, uploaded: Vec<Task>)
        requires
            i < old(self).participants@.len(),
        ensures
            final(self).participants@ == old(self).participants@.update(
                i as int,
                ParticipantInfo {
                    pending_tasks: final(self).participants@[i as int].pending_tasks,
                    uploaded_tasks: final(self).participants@[i as int].uploaded_tasks,
                    ..old(self).participants@[i as int]
                },
            ),
            final(self).participants@[i as int].pending_tasks@ == pending@,
            final(self).participants@[i as int].uploaded_tasks@ == uploaded@,
    {
        let p = vstd::std_specs::vec::vec_index_mut(&mut self.participants, i);
        p.pending_tasks = pending;
        p.uploaded_tasks = uploaded;
    }

    /// Removes the head of the pending-task list of the participant at
    /// `i`.
    pub fn pop_pending_task(&mut self, i: usize)
        requires
            i < old(self).participants@.len(),
            old(self).participants@[i as int].pending_tasks@.len() > 0,
        ensures
            final(self).participants@ == old(self).participants@.update(
                i as int,
                ParticipantInfo {
                    pending_tasks: final(self).participants@[i as int].pending_tasks,
                    ..old(self).participants@[i as int]
                },
            ),
            final(self).participants@[i as int].pending_tasks@ == old(self).participants@[i as int].pending_tasks@.drop_first(),
    {
        let p = vstd::std_specs::vec::vec_index_mut(&mut self.participants, i);
        p.pending_tasks.remove(0);
        proof {
            assert(final(p).pending_tasks@ =~= old(self).participants@[i as int].pending_tasks@.drop_first());
        }
    }

    /// Pushes a task to the front of the pending list of the
    /// participant at `i`: a reassigned task is worked before anything
    /// else, preserving contribution-id order for its chunk.
    pub fn push_front_pending_task(&mut self, i: usize, t: Task)
        requires
            i < old(self).participants@.len(),
        ensures
            final(self).participants@ == old(self).participants@.update(
                i as int,
                ParticipantInfo {
                    pending_tasks: final(self).participants@[i as int].pending_tasks,
                    ..old(self).participants@[i as int]
                },
            ),
            final(self).participants@[i as int].pending_tasks@ == seq![t] + old(self).participants@[i as int].pending_tasks@,
    {
        let p = vstd::std_specs::vec::vec_index_mut(&mut self.participants, i);
        p.pending_tasks.insert(0, t);
        proof {
            assert(final(p).pending_tasks@ =~= seq![t] + old(self).participants@[i as int].pending_tasks@);
        }
    }

    /// Appends a task to the uploaded list of the participant at `i`.
    pub fn push_uploaded_task(&mut self, i: usize, t: Task)
        requires
            i < old(self).participants@.len(),
        ensures
            final(self).participants@ == old(self).participants@.update(
                i as int,
                ParticipantInfo {
                    uploaded_tasks: final(self).participants@[i as int].uploaded_tasks,
                    ..old(self).participants@[i as int]
                },
            ),
            final(self).participants@[i as int].uploaded_tasks@ == old(self).participants@[i as int].uploaded_tasks@.push(t),
    {
        let p = vstd::std_specs::vec::vec_index_mut(&mut self.participants, i);
        p.uploaded_tasks.push(t);
    }

    /// Removes the first occurrence of `t` from the uploaded list of
    /// the participant at `i`, if there is one.
    pub fn remove_uploaded_task(&mut self, i: usize, t: Task) -> (found: bool)
        requires
            i < old(self).participants@.len(),
        ensures
            final(self).participants@ == old(self).participants@.update(
                i as int,
                ParticipantInfo {
                    uploaded_tasks: final(self).participants@[i as int].uploaded_tasks,
                    ..old(self).participants@[i as int]
                },
            ),
            found == uploaded_at(old(self).participants@, i as int).contains(t),
            found ==> exists|k: int|
                0 <= k < uploaded_at(old(self).participants@, i as int).len()
                    && uploaded_at(old(self).participants@, i as int)[k] == t
                    && uploaded_at(final(self).participants@, i as int)
                    == uploaded_at(old(self).participants@, i as int).remove(k),
            !found ==> uploaded_at(final(self).participants@, i as int)
                == uploaded_at(old(self).participants@, i as int),
    {
        let n = self.participants[i].uploaded_tasks.len();
        let mut j: usize = 0;
        let mut found_at: Option<usize> = None;
        while j < n
            invariant
                j <= n,
                i < self.participants@.len(),
                n == uploaded_at(self.participants@, i as int).len(),
                match found_at {
                    Some(k) => k < j && uploaded_at(self.participants@, i as int)[k as int] == t,
                    None => forall|k: int|
                        0 <= k < j ==> uploaded_at(self.participants@, i as int)[k] != t,
                },
            decreases n - j,
        {
            if found_at.is_none() && self.participants[i].uploaded_tasks[j] == t {
                found_at = Some(j);
            }
            j = j + 1;
        }
        match found_at {
            Some(k) => {
                proof {
                    assert(uploaded_at(self.participants@, i as int).contains(t)) by {
                        assert(uploaded_at(self.participants@, i as int)[k as int] == t);
                    }
                }
                let p = vstd::std_specs::vec::vec_index_mut(&mut self.participants, i);
                p.uploaded_tasks.remove(k);
                true
            },
            None => {
                proof {
                    assert(!uploaded_at(self.participants@, i as int).contains(t)) by {
                        if uploaded_at(self.participants@, i as int).contains(t) {
                            let w = choose|w: int|
                                0 <= w < uploaded_at(self.participants@, i as int).len()
                                    && uploaded_at(self.participants@, i as int)[w] == t;
                            assert(uploaded_at(self.participants@, i as int)[w] != t);
                        }
                    }
                }
                false
            },
        }
    }

    /// Assigns every queued participant a target round of `round + 1`
    /// plus its rank in the queue.
    pub fn assign_targets(&mut self, round: u64)
        requires
            round + 1 + old(self).participants@.len() <= u64::MAX,
        ensures
            final(self).participants@.len() == old(self).participants@.len(),
            forall|j: int|
                0 <= j < old(self).participants@.len() ==> final(self).participants@[j] == (
                if queued_at(old(self).participants@, j) {
                    ParticipantInfo {
                        target_round: Option::Some(
                            (round + 1 + queued_rank(old(self).participants@, j)) as u64,
                        ),
                        ..old(self).participants@[j]
                    }
                } else {
                    old(self).participants@[j]
                }),
    {
        let n = self.participants.len();
        let mut i: usize = 0;
        while i < n
            invariant
                i <= n,
                n == self.participants@.len(),
                self.participants@.len() == old(self).participants@.len(),
                round + 1 + old(self).participants@.len() <= u64::MAX,
                forall|j: int|
                    0 <= j < i ==> self.participants@[j] == (if queued_at(
                        old(self).participants@,
                        j,
                    ) {
                        ParticipantInfo {
                            target_round: Option::Some(
                                (round + 1 + queued_rank(old(self).participants@, j)) as u64,
                            ),
                            ..old(self).participants@[j]
                        }
                    } else {
                        old(self).participants@[j]
                    }),
                forall|j: int| i <= j < n ==> self.participants@[j] == old(self).participants@[j],
                forall|j: int|
                    0 <= j < n ==> (#[trigger] self.participants@[j]).status == old(self).participants@[j].status,
            decreases n - i,
        {
            if matches!(self.participants[i].status, ParticipantStatus::Queued) {
                let rk = self.rank_of(i);
                proof {
                    lemma_count_queued_pointwise(
                        self.participants@.take(i as int),
                        old(self).participants@.take(i as int),
                    );
                    lemma_count_queued_le_len(old(self).participants@.take(i as int));
                }
                let target = round + 1 + (rk as u64);
                self.set_target(i, Some(target));
            }
            i = i + 1;
        }
    }

    /// Clears the target round of every queued participant, so the
    /// maintenance pass can assign fresh ones after a round advance.
    pub fn clear_queued_targets(&mut self)
        ensures
            final(self).participants@.len() == old(self).participants@.len(),
            forall|j: int|
                0 <= j < old(self).participants@.len() ==> final(self).participants@[j] == (
                if queued_at(old(self).participants@, j) {
                    ParticipantInfo { target_round: Option::None, ..old(self).participants@[j] }
                } else {
                    old(self).participants@[j]
                }),
    {
        let n = self.participants.len();
        let mut i: usize = 0;
        while i < n
            invariant
                i <= n,
                n == self.participants@.len(),
                self.participants@.len() == old(self).participants@.len(),
                forall|j: int|
                    0 <= j < i ==> self.participants@[j] == (if queued_at(
                        old(self).participants@,
                        j,
                    ) {
                        ParticipantInfo {
                            target_round: Option::None,
                            ..old(self).participants@[j]
                        }
                    } else {
                        old(self).participants@[j]
                    }),
                forall|j: int| i <= j < n ==> self.participants@[j] == old(self).participants@[j],
            decreases n - i,
        {
            if matches!(self.participants[i].status, ParticipantStatus::Queued) {
                let p = vstd::std_specs::vec::vec_index_mut(&mut self.participants, i);
                p.target_round = None;
            }
            i = i + 1;
        }
    }

    /// The index of the queued participant that joined earliest, if the
    /// queue is not empty.
    pub fn first_queued(&self) -> (r: Option<usize>)
        ensures
            match r {
                Some(i) => i < self.participants@.len() && queued_at(self.participants@, i as int)
                    && forall|j: int| 0 <= j < i ==> !queued_at(self.participants@, j),
                None => forall|j: int|
                    0 <= j < self.participants@.len() ==> !queued_at(self.participants@, j),
            },
    {
        let n = self.participants.len();
        let mut i: usize = 0;
        while i < n
            invariant
                i <= n,
                n == self.participants@.len(),
                forall|j: int| 0 <= j < i ==> !queued_at(self.participants@, j),
            decreases n - i,
        {
            if matches!(self.participants[i].status, ParticipantStatus::Queued) {
                return Some(i);
            }
            i = i + 1;
        }
        None
    }
}

/// Pushing a participant adds its own contribution to the current
/// count.
pub proof fn lemma_count_current_push(ps: Seq<ParticipantInfo>, x: ParticipantInfo)
    ensures
        count_current(ps.push(x)) == count_current(ps) + if x.status == ParticipantStatus::Current {
            1nat
        } else {
            0nat
        },
{
    let t = ps.push(x);
    assert(t.last() == x);
    assert(t.drop_last() =~= ps);
}

/// The same, for the queued count.
pub proof fn lemma_count_queued_push(ps: Seq<ParticipantInfo>, x: ParticipantInfo)
    ensures
        count_queued(ps.push(x)) == count_queued(ps) + if x.status == ParticipantStatus::Queued {
            1nat
        } else {
            0nat
        },
{
    let t = ps.push(x);
    assert(t.last() == x);
    assert(t.drop_last() =~= ps);
}

} // verus!
