use phase1_coordinator::coordinator::Coordinator;
use phase1_coordinator::coordinator::PendingContribution;
use phase1_coordinator::objects::ContributionFileSignature;
use phase1_coordinator::objects::ContributionSignatureLocator;
use phase1_coordinator::objects::Participant;
use phase1_coordinator::objects::Task;
use phase1_coordinator::objects::ContributionLocator;
use phase1_coordinator::registry::ParticipantStatus;
use phase1_coordinator::objects::ContributionInfo;
use phase1_coordinator::requests::get_contributions_info;
use phase1_coordinator::requests::get_contributor_queue_status;
use phase1_coordinator::requests::post_contribution_chunk;
use phase1_coordinator::requests::post_contribution_info;
use phase1_coordinator::requests::PostChunkRequest;
use phase1_coordinator::requests::ContributorStatus;
use phase1_coordinator::requests::LazyJson;
use phase1_coordinator::CoordinatorError;
use phase1_coordinator::ErrorKind;

const VERIFIER: &str = "coordinator-verifier-key";

fn new_coordinator(chunks: usize) -> Coordinator {
    Coordinator::new(chunks, String::from(VERIFIER), 60, 60)
}

fn ceremony_verifier() -> Participant {
    Participant::new_verifier(VERIFIER)
}

fn blake2b(bytes: &[u8]) -> Vec<u8> {
    let mut hasher = <blake2::Blake2b512 as blake2::Digest>::new();
    blake2::Digest::update(&mut hasher, bytes);
    blake2::Digest::finalize(hasher).to_vec()
}

/// A full happy path over one chunk: join an empty queue, become
/// current immediately, lock chunk 0, upload contribution 1 and its
/// signature, watch the lock auto-release and the pending count drop.
#[test]
fn single_contributor_round_trip() {
    let mut c = new_coordinator(1);
    let a = Participant::new_contributor("key-a");

    assert!(c.add_to_queue(&a, 1).is_ok());
    // empty queue: current immediately
    assert!(c.is_current_contributor(&a));
    assert_eq!(c.pending_tasks_of(&a).unwrap(), vec![Task::new(0, 1)]);

    let ll = c.try_lock(&a, 2).expect("lock should succeed");
    assert_eq!(ll.current_contribution().round_height(), 1);
    assert_eq!(ll.current_contribution().contribution_id(), 0);
    assert!(ll.current_contribution().is_verified());
    assert_eq!(ll.next_contribution().contribution_id(), 1);
    assert!(!ll.next_contribution().is_verified());
    assert!(c.is_locked(0));

    let bytes = vec![1u8, 2, 3, 4, 5];
    c.write_contribution(&a, ll.next_contribution(), bytes.clone()).expect("upload should succeed");
    // the lock is still held: the signature must also be recorded
    assert!(c.is_locked(0));
    assert_eq!(c.pending_tasks_of(&a).unwrap().len(), 1);

    let sig_loc = ContributionSignatureLocator::new(1, 0, 1, false);
    let sig = ContributionFileSignature::new(vec![7u8; 64]);
    c.write_contribution_file_signature(&a, sig_loc, sig).expect("signature should be accepted");

    // lock auto-releases and the pending count decreases by one
    assert!(!c.is_locked(0));
    assert_eq!(c.pending_tasks_of(&a).unwrap().len(), 0);
    assert_eq!(c.get_pending_verifications(), vec![Task::new(0, 1)]);

    // the round trip through storage is byte-identical
    let stored = c.get_challenge(1, 0, 1, false).expect("stored contribution should read back");
    assert_eq!(stored, bytes);
}

/// Verification advances the chunk by exactly one contribution id,
/// records the digest of the stored bytes, finishes the contributor
/// and rolls the round over.
#[test]
fn verification_advances_round() {
    let mut c = new_coordinator(1);
    let a = Participant::new_contributor("key-a");
    c.add_to_queue(&a, 1).unwrap();
    let ll = c.try_lock(&a, 2).unwrap();
    let bytes = vec![42u8; 16];
    c.write_contribution(&a, ll.next_contribution(), bytes.clone()).unwrap();
    let sig_loc = ContributionSignatureLocator::new(1, 0, 1, false);
    c.write_contribution_file_signature(&a, sig_loc, ContributionFileSignature::new(vec![1]))
        .unwrap();

    assert_eq!(c.current_round_height(), 1);
    let next_challenge = vec![9u8; 8];
    c.default_verify(&ceremony_verifier(), &Task::new(0, 1), true, next_challenge.clone())
        .expect("verification should succeed");

    // the digest recorded at verification time matches the digest of
    // the stored contribution bytes
    // (the chunk state was reset by the round advance, so check the
    // copied-forward challenge instead)
    assert_eq!(c.get_challenge(2, 0, 0, true).unwrap(), next_challenge);
    assert_eq!(c.get_challenge(1, 0, 1, true).unwrap(), next_challenge);

    // round rolled over; the contributor is finished
    assert_eq!(c.current_round_height(), 2);
    assert!(matches!(c.status_of(&a), Some(ParticipantStatus::Finished)));
    assert!(matches!(get_contributor_queue_status(&c, &a), ContributorStatus::Finished));
}

/// The digest recorded at verification time is the transcript digest
/// of the uploaded bytes.
#[test]
fn verification_records_contribution_digest() {
    let mut c = new_coordinator(2);
    let a = Participant::new_contributor("key-a");
    c.add_to_queue(&a, 1).unwrap();
    let ll = c.try_lock(&a, 2).unwrap();
    let bytes = vec![3u8, 1, 4, 1, 5, 9, 2, 6];
    c.write_contribution(&a, ll.next_contribution(), bytes.clone()).unwrap();
    let sig_loc = ContributionSignatureLocator::new(1, 0, 1, false);
    c.write_contribution_file_signature(&a, sig_loc, ContributionFileSignature::new(vec![1]))
        .unwrap();
    c.default_verify(&ceremony_verifier(), &Task::new(0, 1), true, vec![8u8; 4]).unwrap();

    // with a second chunk outstanding the round does not advance, so
    // the chunk state still shows the recorded digest
    assert_eq!(c.current_round_height(), 1);
    assert_eq!(c.chunks[0].verified_id, 1);
    assert_eq!(c.chunks[0].last_verified_digest, blake2b(&bytes));
}

/// Re-sending an already verified contribution's upload fails with a
/// state conflict, never a silent overwrite; so does re-sending an
/// upload that is still in flight.
#[test]
fn resend_is_state_conflict() {
    let mut c = new_coordinator(2);
    let a = Participant::new_contributor("key-a");
    c.add_to_queue(&a, 1).unwrap();
    let ll = c.try_lock(&a, 2).unwrap();
    let loc = ll.next_contribution();
    c.write_contribution(&a, loc, vec![1, 2, 3]).unwrap();

    // an upload for the same slot while the first is in flight
    let again = c.write_contribution(&a, loc, vec![4, 5, 6]).unwrap_err();
    assert_eq!(again, CoordinatorError::ContributionAlreadyWritten);
    assert_eq!(again.kind(), ErrorKind::StateConflict);

    let sig_loc = ContributionSignatureLocator::new(1, 0, 1, false);
    c.write_contribution_file_signature(&a, sig_loc, ContributionFileSignature::new(vec![1]))
        .unwrap();
    c.default_verify(&ceremony_verifier(), &Task::new(0, 1), true, vec![9]).unwrap();

    // the slot is verified now: the upload must not overwrite it
    let after = c.write_contribution(&a, loc, vec![7, 8, 9]).unwrap_err();
    assert_eq!(after, CoordinatorError::ContributionAlreadyVerified);
    assert_eq!(after.kind(), ErrorKind::StateConflict);
    // the stored bytes are untouched
    assert_eq!(c.get_challenge(1, 0, 1, false).unwrap(), vec![1, 2, 3]);
}

/// A second participant cannot lock a held chunk; after the holder's
/// heartbeat lapses, maintenance drops it, releases the chunk, and the
/// next participant may lock it.
#[test]
fn lock_contention_and_timeout() {
    let mut c = new_coordinator(1);
    let a = Participant::new_contributor("key-a");
    let b = Participant::new_contributor("key-b");
    c.add_to_queue(&a, 1).unwrap();
    c.add_to_queue(&b, 2).unwrap();
    assert!(c.is_current_contributor(&a));
    assert!(!c.is_current_contributor(&b));

    c.try_lock(&a, 3).unwrap();
    // b is not current, so its lock attempt fails before the chunk
    assert_eq!(c.try_lock(&b, 4).unwrap_err(), CoordinatorError::NotCurrentParticipant);
    // a second lock attempt by the holder reports the held chunk
    assert_eq!(c.try_lock(&a, 4).unwrap_err(), CoordinatorError::ChunkLocked);
    assert_eq!(c.try_lock(&a, 4).unwrap_err().kind(), ErrorKind::StateConflict);

    // a's heartbeat lapses; b stays fresh
    c.heartbeat(&b, 60).unwrap();
    c.update(100);

    assert!(matches!(c.status_of(&a), Some(ParticipantStatus::Dropped)));
    assert!(!c.is_locked(0));
    assert!(c.is_current_contributor(&b));
    let ll = c.try_lock(&b, 101).expect("b should now hold the chunk");
    assert_eq!(ll.next_contribution().chunk_id(), 0);
    assert!(c.is_locked(0));
    assert_eq!(c.holder_of(0).unwrap(), "key-b");
}

/// At most one lock ever exists per chunk, and explicit release obeys
/// ownership.
#[test]
fn lock_exclusivity_and_release() {
    let mut c = new_coordinator(2);
    let a = Participant::new_contributor("key-a");
    c.add_to_queue(&a, 1).unwrap();
    c.try_lock(&a, 2).unwrap();
    assert_eq!(c.locks.len(), 1);

    let b = Participant::new_contributor("key-b");
    c.add_to_queue(&b, 3).unwrap();
    // releasing someone else's lock is refused
    assert_eq!(c.release(&b, 0).unwrap_err(), CoordinatorError::UnauthorizedRelease);
    // releasing an unlocked chunk is refused
    assert_eq!(c.release(&a, 1).unwrap_err(), CoordinatorError::ChunkNotLocked);
    // the holder may release
    c.release(&a, 0).unwrap();
    assert!(!c.is_locked(0));
}

/// Queue positions are recomputed on read and never increase as rounds
/// advance and participants ahead leave.
#[test]
fn queue_positions_never_increase() {
    let mut c = new_coordinator(1);
    let a = Participant::new_contributor("key-a");
    let b = Participant::new_contributor("key-b");
    let d = Participant::new_contributor("key-d");
    c.add_to_queue(&a, 1).unwrap();
    c.add_to_queue(&b, 1).unwrap();
    c.add_to_queue(&d, 1).unwrap();
    c.update(2);

    // a is current; b and d wait at positions 1 and 2
    assert!(matches!(get_contributor_queue_status(&c, &a), ContributorStatus::Round));
    let pos_b_before = match get_contributor_queue_status(&c, &b) {
        ContributorStatus::Queue(p, n) => {
            assert_eq!(n, 2);
            p
        },
        other => panic!("b should be queued, got {:?}", other),
    };
    let pos_d_before = match get_contributor_queue_status(&c, &d) {
        ContributorStatus::Queue(p, _) => p,
        other => panic!("d should be queued, got {:?}", other),
    };
    assert_eq!(pos_b_before, 1);
    assert_eq!(pos_d_before, 2);

    // a finishes its round; the round advances and b becomes current
    let ll = c.try_lock(&a, 3).unwrap();
    c.write_contribution(&a, ll.next_contribution(), vec![1]).unwrap();
    c.write_contribution_file_signature(
        &a,
        ContributionSignatureLocator::new(1, 0, 1, false),
        ContributionFileSignature::new(vec![1]),
    )
    .unwrap();
    c.default_verify(&ceremony_verifier(), &Task::new(0, 1), true, vec![2]).unwrap();
    c.update(4);

    assert!(matches!(get_contributor_queue_status(&c, &b), ContributorStatus::Round));
    let pos_d_after = match get_contributor_queue_status(&c, &d) {
        ContributorStatus::Queue(p, n) => {
            assert_eq!(n, 1);
            p
        },
        other => panic!("d should still be queued, got {:?}", other),
    };
    assert!(pos_d_after <= pos_d_before);
    assert_eq!(pos_d_after, 1);
}

/// Round N + 1 tasks appear exactly when every chunk of round N holds
/// a verified contribution at the expected id.
#[test]
fn round_advances_only_when_all_chunks_verified() {
    let mut c = new_coordinator(2);
    let a = Participant::new_contributor("key-a");
    let b = Participant::new_contributor("key-b");
    c.add_to_queue(&a, 1).unwrap();
    c.add_to_queue(&b, 1).unwrap();

    // chunk 0
    let ll0 = c.try_lock(&a, 2).unwrap();
    assert_eq!(ll0.next_contribution().chunk_id(), 0);
    c.write_contribution(&a, ll0.next_contribution(), vec![10]).unwrap();
    c.write_contribution_file_signature(
        &a,
        ContributionSignatureLocator::new(1, 0, 1, false),
        ContributionFileSignature::new(vec![1]),
    )
    .unwrap();
    c.default_verify(&ceremony_verifier(), &Task::new(0, 1), true, vec![11]).unwrap();
    // one chunk still open: same round, nobody new promoted
    assert_eq!(c.current_round_height(), 1);
    assert!(matches!(c.status_of(&b), Some(ParticipantStatus::Queued)));

    // chunk 1
    let ll1 = c.try_lock(&a, 3).unwrap();
    assert_eq!(ll1.next_contribution().chunk_id(), 1);
    c.write_contribution(&a, ll1.next_contribution(), vec![20]).unwrap();
    c.write_contribution_file_signature(
        &a,
        ContributionSignatureLocator::new(1, 1, 1, false),
        ContributionFileSignature::new(vec![1]),
    )
    .unwrap();
    c.default_verify(&ceremony_verifier(), &Task::new(1, 1), true, vec![21]).unwrap();

    // now every chunk is verified: the round advances and the next
    // participant is handed one task per chunk
    assert_eq!(c.current_round_height(), 2);
    assert!(c.is_current_contributor(&b));
    assert_eq!(c.pending_tasks_of(&b).unwrap(), vec![Task::new(0, 1), Task::new(1, 1)]);
}

/// A rejected transformation does not advance the chunk and the task
/// returns to the contributor for a retry.
#[test]
fn rejected_contribution_is_retried() {
    let mut c = new_coordinator(1);
    let a = Participant::new_contributor("key-a");
    c.add_to_queue(&a, 1).unwrap();
    let ll = c.try_lock(&a, 2).unwrap();
    c.write_contribution(&a, ll.next_contribution(), vec![5]).unwrap();
    c.write_contribution_file_signature(
        &a,
        ContributionSignatureLocator::new(1, 0, 1, false),
        ContributionFileSignature::new(vec![1]),
    )
    .unwrap();

    let e = c.default_verify(&ceremony_verifier(), &Task::new(0, 1), false, vec![6]).unwrap_err();
    assert_eq!(e, CoordinatorError::TransformationRejected);
    assert_eq!(e.kind(), ErrorKind::Verification);

    // nothing advanced; the task is pending again and can be re-locked
    assert_eq!(c.current_round_height(), 1);
    assert_eq!(c.chunks[0].verified_id, 0);
    assert_eq!(c.pending_tasks_of(&a).unwrap(), vec![Task::new(0, 1)]);
    assert!(c.try_lock(&a, 3).is_ok());
}

/// Verification is fenced: only the designated verifier may verify,
/// and a stale or unknown task fails closed.
#[test]
fn verification_is_fenced() {
    let mut c = new_coordinator(1);
    let a = Participant::new_contributor("key-a");
    c.add_to_queue(&a, 1).unwrap();

    let e = c.default_verify(&a, &Task::new(0, 1), true, vec![]).unwrap_err();
    assert_eq!(e, CoordinatorError::UnauthorizedVerifier);
    assert_eq!(e.kind(), ErrorKind::Authorization);

    let e = c.default_verify(&ceremony_verifier(), &Task::new(0, 1), true, vec![]).unwrap_err();
    assert_eq!(e, CoordinatorError::StaleVerification);
    assert_eq!(e.kind(), ErrorKind::StateConflict);
}

/// Duplicate identities never enter the queue twice.
#[test]
fn duplicate_join_is_rejected() {
    let mut c = new_coordinator(1);
    let a = Participant::new_contributor("key-a");
    c.add_to_queue(&a, 1).unwrap();
    let e = c.add_to_queue(&a, 2).unwrap_err();
    assert_eq!(e, CoordinatorError::AlreadyInQueue);
    assert_eq!(e.kind(), ErrorKind::StateConflict);
}

/// Being dropped is recoverable: the identity may rejoin the queue
/// with a clean slate and take part again.
#[test]
fn dropped_participant_may_rejoin() {
    let mut c = new_coordinator(1);
    let a = Participant::new_contributor("key-a");
    c.add_to_queue(&a, 1).unwrap();
    c.try_lock(&a, 2).unwrap();

    // a's heartbeat lapses; maintenance evicts it
    c.update(100);
    assert!(matches!(c.status_of(&a), Some(ParticipantStatus::Dropped)));
    assert!(!c.is_locked(0));

    // the same identity rejoins and, with the queue empty, is seated
    c.add_to_queue(&a, 101).expect("a dropped identity may rejoin");
    assert!(c.is_current_contributor(&a));
    assert_eq!(c.pending_tasks_of(&a).unwrap(), vec![Task::new(0, 1)]);
    assert!(c.try_lock(&a, 102).is_ok());
}

/// Operations on unknown identities are refused without state change.
#[test]
fn unknown_participant_is_refused() {
    let mut c = new_coordinator(1);
    let ghost = Participant::new_contributor("nobody");
    assert_eq!(c.heartbeat(&ghost, 1).unwrap_err(), CoordinatorError::UnknownParticipant);
    assert_eq!(c.try_lock(&ghost, 1).unwrap_err(), CoordinatorError::UnknownParticipant);
    assert_eq!(c.pending_tasks_of(&ghost).unwrap_err(), CoordinatorError::UnknownParticipant);
    assert_eq!(
        c.try_lock(&ghost, 1).unwrap_err().kind(),
        ErrorKind::Authorization
    );
}

/// The signature slot must match the written contribution.
#[test]
fn signature_slot_checks() {
    let mut c = new_coordinator(1);
    let a = Participant::new_contributor("key-a");
    c.add_to_queue(&a, 1).unwrap();

    // nothing written yet
    let e = c
        .write_contribution_file_signature(
            &a,
            ContributionSignatureLocator::new(1, 0, 1, false),
            ContributionFileSignature::new(vec![1]),
        )
        .unwrap_err();
    assert_eq!(e, CoordinatorError::ContributionMissing);

    let ll = c.try_lock(&a, 2).unwrap();
    c.write_contribution(&a, ll.next_contribution(), vec![1]).unwrap();
    // a signature for the wrong contribution id
    let e = c
        .write_contribution_file_signature(
            &a,
            ContributionSignatureLocator::new(1, 0, 2, false),
            ContributionFileSignature::new(vec![1]),
        )
        .unwrap_err();
    assert_eq!(e, CoordinatorError::SignatureMismatch);
}

/// Uploading needs the chunk's lock and the matching task.
#[test]
fn upload_needs_lock_and_task() {
    let mut c = new_coordinator(1);
    let a = Participant::new_contributor("key-a");
    c.add_to_queue(&a, 1).unwrap();

    // no lock yet
    let e = c.write_contribution(&a, ContributionLocator::new(1, 0, 1, false), vec![1]).unwrap_err();
    assert_eq!(e, CoordinatorError::ChunkNotLocked);
    // a locator for a chunk that does not exist
    let e = c.write_contribution(&a, ContributionLocator::new(1, 7, 1, false), vec![1]).unwrap_err();
    assert_eq!(e, CoordinatorError::WrongLocator);
}

/// Contribution info is gated to the current or a finished
/// contributor, and the public summary aggregates what was accepted.
#[test]
fn contribution_info_flow() {
    let mut c = new_coordinator(1);
    let a = Participant::new_contributor("key-a");
    let outsider = Participant::new_contributor("outsider");
    c.add_to_queue(&a, 1).unwrap();

    let info = ContributionInfo::new(String::from("key-a"), 1, vec![1, 2, 3]);
    assert!(post_contribution_info(&mut c, &outsider, &LazyJson::new(info.clone())).is_err());
    post_contribution_info(&mut c, &a, &LazyJson::new(info)).unwrap();

    let summary = get_contributions_info(&c);
    assert_eq!(summary.len(), 1);
    assert_eq!(summary[0].public_key, "key-a");
    assert_eq!(summary[0].round, 1);
}

/// Stopping the coordinator flips its flag and nothing else.
#[test]
fn shutdown_sets_flag() {
    let mut c = new_coordinator(1);
    assert!(!c.is_shut_down());
    c.shutdown().unwrap();
    assert!(c.is_shut_down());
}

/// try_contribute confirms a signed upload and names its locator.
#[test]
fn try_contribute_confirms_upload() {
    let mut c = new_coordinator(1);
    let a = Participant::new_contributor("key-a");
    c.add_to_queue(&a, 1).unwrap();
    assert_eq!(c.try_contribute(&a, 0).unwrap_err(), CoordinatorError::ContributionMissing);

    let ll = c.try_lock(&a, 2).unwrap();
    c.write_contribution(&a, ll.next_contribution(), vec![1]).unwrap();
    // contribution written but not signed: not complete yet
    assert_eq!(c.try_contribute(&a, 0).unwrap_err(), CoordinatorError::ContributionMissing);
    c.write_contribution_file_signature(
        &a,
        ContributionSignatureLocator::new(1, 0, 1, false),
        ContributionFileSignature::new(vec![1]),
    )
    .unwrap();
    let loc = c.try_contribute(&a, 0).unwrap();
    assert_eq!(loc.round_height(), 1);
    assert_eq!(loc.chunk_id(), 0);
    assert_eq!(loc.contribution_id(), 1);

    assert!(matches!(c.chunks[0].pending, PendingContribution::Awaiting { .. }));
}

/// The combined upload endpoint: contribution and signature land in
/// one request, and the chunk's lock releases with the second step.
#[test]
fn post_chunk_request_uploads_both() {
    let mut c = new_coordinator(1);
    let a = Participant::new_contributor("key-a");
    c.add_to_queue(&a, 1).unwrap();
    let ll = c.try_lock(&a, 2).unwrap();

    let request = PostChunkRequest::new(
        ll.next_contribution(),
        vec![6, 6, 6],
        ContributionSignatureLocator::new(1, 0, 1, false),
        ContributionFileSignature::new(vec![2; 32]),
    );
    post_contribution_chunk(&mut c, &a, request).expect("both writes succeed");
    assert!(!c.is_locked(0));
    assert_eq!(c.get_challenge(1, 0, 1, false).unwrap(), vec![6, 6, 6]);
    assert_eq!(c.get_pending_verifications(), vec![Task::new(0, 1)]);

    // without a lock the same upload is refused and nothing changes
    let request = PostChunkRequest::new(
        ll.next_contribution(),
        vec![7],
        ContributionSignatureLocator::new(1, 0, 1, false),
        ContributionFileSignature::new(vec![2; 32]),
    );
    assert!(post_contribution_chunk(&mut c, &a, request).is_err());
    assert_eq!(c.get_challenge(1, 0, 1, false).unwrap(), vec![6, 6, 6]);
}
