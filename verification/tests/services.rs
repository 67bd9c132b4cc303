use porto::domain::{
    DomainError, EvidenceReference, MoveTransactionReference, OpaqueId, ProjectionVersion,
    SubmissionId, SubmissionIntent, SubmissionIntentStore, SubmissionState, UsageBatchReference,
    UsageRange,
};
use porto::domain::ReplayRecord;
use porto::services::{
    advance_projection_cursor, advance_submission, lookup_outcome, record_submission,
    replay_outcome, stored_intent, write_outcome, InMemoryIntentStore,
};

fn id(value: &str) -> OpaqueId {
    OpaqueId::new(value).unwrap()
}

fn prepared() -> SubmissionIntent {
    SubmissionIntent::prepared(
        SubmissionId(id("submission-1")),
        UsageBatchReference {
            period: id("period-1"),
            bucket: id("bucket-1"),
            range: UsageRange::new(id("lane-1"), 1, 2).unwrap(),
            payload_digest: id("digest-1"),
        },
        EvidenceReference(id("evidence-1")),
    )
}

#[test]
fn records_before_submission_and_preserves_exact_retry() {
    let mut store = InMemoryIntentStore::default();
    let first = record_submission(&mut store, prepared()).unwrap();
    let retry = record_submission(&mut store, prepared()).unwrap();
    assert_eq!(first, retry);
    assert!(matches!(first.state, SubmissionState::Prepared));
}

#[test]
fn persists_submitted_then_confirmed_then_indexed_as_distinct_states() {
    let mut store = InMemoryIntentStore::default();
    let intent = record_submission(&mut store, prepared()).unwrap();
    let transaction = MoveTransactionReference(id("tx-1"));
    let submitted = advance_submission(
        &mut store,
        &intent.id,
        SubmissionState::Submitted {
            transaction: transaction.clone(),
        },
    )
    .unwrap();
    let confirmed = advance_submission(
        &mut store,
        &intent.id,
        SubmissionState::Confirmed {
            transaction: transaction.clone(),
        },
    )
    .unwrap();
    let indexed = advance_submission(
        &mut store,
        &intent.id,
        SubmissionState::Indexed {
            transaction,
            projection: ProjectionVersion(id("projection-1")),
        },
    )
    .unwrap();

    assert!(matches!(submitted.state, SubmissionState::Submitted { .. }));
    assert!(matches!(confirmed.state, SubmissionState::Confirmed { .. }));
    assert!(matches!(indexed.state, SubmissionState::Indexed { .. }));
}

#[test]
fn cursor_is_persisted_independently_from_confirmation() {
    let mut store = InMemoryIntentStore::default();
    let cursor =
        advance_projection_cursor(&mut store, ProjectionVersion(id("projection-1")), None)
            .unwrap();
    assert_eq!(store.load_cursor().unwrap(), Some(cursor));
}

#[test]
fn conflicting_replay_range_is_rejected() {
    let mut store = InMemoryIntentStore::default();
    record_submission(&mut store, prepared()).unwrap();
    let mut conflicting = prepared();
    conflicting.id = SubmissionId(id("submission-2"));
    conflicting.usage_batch.range = UsageRange::new(id("lane-1"), 2, 3).unwrap();
    conflicting.usage_batch.payload_digest = id("digest-2");

    assert_eq!(
        record_submission(&mut store, conflicting),
        Err(DomainError::ReplayConflict)
    );
}

#[test]
fn retry_under_another_id_returns_the_original_record() {
    let mut store = InMemoryIntentStore::default();
    let first = record_submission(&mut store, prepared()).unwrap();
    let mut again = prepared();
    again.id = SubmissionId(id("submission-9"));
    assert_eq!(record_submission(&mut store, again).unwrap(), first);
    assert_eq!(
        store.load(&SubmissionId(id("submission-9"))).unwrap(),
        None
    );
}

#[test]
fn reused_id_with_another_batch_is_refused() {
    let mut store = InMemoryIntentStore::default();
    record_submission(&mut store, prepared()).unwrap();
    let mut other = prepared();
    other.usage_batch.range = UsageRange::new(id("lane-1"), 7, 9).unwrap();
    assert_eq!(
        record_submission(&mut store, other),
        Err(DomainError::ConflictingIntent)
    );
}

#[test]
fn advancing_a_missing_or_skipping_intent_is_refused() {
    let mut store = InMemoryIntentStore::default();
    let missing = advance_submission(
        &mut store,
        &SubmissionId(id("nope")),
        SubmissionState::Submitted {
            transaction: MoveTransactionReference(id("tx-1")),
        },
    );
    assert_eq!(missing, Err(DomainError::MissingIntent));
    let intent = record_submission(&mut store, prepared()).unwrap();
    let skipped = advance_submission(
        &mut store,
        &intent.id,
        SubmissionState::Confirmed {
            transaction: MoveTransactionReference(id("tx-1")),
        },
    );
    assert!(matches!(
        skipped,
        Err(DomainError::InvalidStateTransition { .. })
    ));
    assert_eq!(store.load(&intent.id).unwrap(), Some(intent));
}

#[test]
fn store_keeps_many_intents_by_id() {
    let mut store = InMemoryIntentStore::default();
    for (name, first) in [("s-c", 10u64), ("s-a", 20), ("s-b", 30)] {
        let mut intent = prepared();
        intent.id = SubmissionId(id(name));
        intent.usage_batch.range = UsageRange::new(id("lane-1"), first, first + 1).unwrap();
        record_submission(&mut store, intent).unwrap();
    }
    for name in ["s-a", "s-b", "s-c"] {
        let loaded = store.load(&SubmissionId(id(name))).unwrap().unwrap();
        assert_eq!(loaded.id, SubmissionId(id(name)));
    }
    assert_eq!(store.create(prepared()), Ok(()));
    assert_eq!(store.create(prepared()), Err(DomainError::ConflictingIntent));
}

#[test]
fn conflicting_replay_creates_nothing() {
    let mut store = InMemoryIntentStore::default();
    record_submission(&mut store, prepared()).unwrap();
    let mut conflicting = prepared();
    conflicting.id = SubmissionId(id("submission-2"));
    conflicting.usage_batch.range = UsageRange::new(id("lane-1"), 2, 3).unwrap();
    assert_eq!(
        record_submission(&mut store, conflicting),
        Err(DomainError::ReplayConflict)
    );
    assert_eq!(store.load(&SubmissionId(id("submission-2"))), Ok(None));
}

#[test]
fn outcomes_hand_on_store_errors_and_name_refusals() {
    let intent = prepared();
    let failed: Result<ReplayRecord, DomainError> = Err(DomainError::MissingIntent);
    assert_eq!(replay_outcome(failed), Some(Err(DomainError::MissingIntent)));
    assert_eq!(
        replay_outcome::<DomainError>(Ok(ReplayRecord::Conflict)),
        Some(Err(DomainError::ReplayConflict))
    );
    assert_eq!(
        replay_outcome::<DomainError>(Ok(ReplayRecord::Exact(Box::new(prepared())))),
        Some(Ok(prepared()))
    );
    assert_eq!(replay_outcome::<DomainError>(Ok(ReplayRecord::Absent)), None);
    let mut other = prepared();
    other.evidence = EvidenceReference(id("evidence-2"));
    assert_eq!(
        lookup_outcome::<DomainError>(&intent, Ok(Some(other))),
        Some(Err(DomainError::ConflictingIntent))
    );
    assert_eq!(
        lookup_outcome::<DomainError>(&intent, Ok(Some(prepared()))),
        Some(Ok(prepared()))
    );
    assert_eq!(lookup_outcome::<DomainError>(&intent, Ok(None)), None);
    assert_eq!(
        lookup_outcome(&intent, Err(DomainError::InvalidRange)),
        Some(Err(DomainError::InvalidRange))
    );
    assert_eq!(
        write_outcome(prepared(), Err(DomainError::ConflictingIntent)),
        Err(DomainError::ConflictingIntent)
    );
    assert_eq!(write_outcome::<DomainError>(prepared(), Ok(())), Ok(prepared()));
    assert_eq!(
        stored_intent::<DomainError>(Ok(None)),
        Err(DomainError::MissingIntent)
    );
    assert_eq!(
        stored_intent(Err(DomainError::InvalidRange)),
        Err(DomainError::InvalidRange)
    );
}
