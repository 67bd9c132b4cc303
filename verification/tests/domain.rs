use porto::domain::{
    DomainError, EvidenceReference, MoveTransactionReference, OpaqueId, ProjectionVersion,
    ReplayRelation, SubmissionId, SubmissionIntent, SubmissionState, UsageBatchReference,
    UsageRange, TESTNET_DISCLAIMER,
};

fn id(value: &str) -> OpaqueId {
    OpaqueId::new(value).unwrap()
}

fn batch(bucket: &str, first: u64, last: u64, digest: &str) -> UsageBatchReference {
    UsageBatchReference {
        period: id("period-1"),
        bucket: id(bucket),
        range: UsageRange::new(id("lane-1"), first, last).unwrap(),
        payload_digest: id(digest),
    }
}

#[test]
fn submission_states_distinguish_submitted_confirmed_and_indexed() {
    let prepared = SubmissionIntent::prepared(
        SubmissionId(id("submission-1")),
        UsageBatchReference {
            period: id("period-1"),
            bucket: id("bucket-1"),
            range: UsageRange::new(id("lane-1"), 5, 8).unwrap(),
            payload_digest: id("digest-1"),
        },
        EvidenceReference(id("evidence-1")),
    );
    let transaction = MoveTransactionReference(id("tx-1"));
    let submitted = prepared
        .transition(SubmissionState::Submitted {
            transaction: transaction.clone(),
        })
        .unwrap();
    let confirmed = submitted
        .transition(SubmissionState::Confirmed {
            transaction: transaction.clone(),
        })
        .unwrap();
    let indexed = confirmed
        .transition(SubmissionState::Indexed {
            transaction,
            projection: ProjectionVersion(id("projection-7")),
        })
        .unwrap();

    assert!(matches!(indexed.state, SubmissionState::Indexed { .. }));
}

#[test]
fn submission_cannot_skip_confirmation() {
    let prepared = SubmissionIntent::prepared(
        SubmissionId(id("submission-1")),
        UsageBatchReference {
            period: id("period-1"),
            bucket: id("bucket-1"),
            range: UsageRange::new(id("lane-1"), 5, 8).unwrap(),
            payload_digest: id("digest-1"),
        },
        EvidenceReference(id("evidence-1")),
    );
    let result = prepared.transition(SubmissionState::Confirmed {
        transaction: MoveTransactionReference(id("tx-1")),
    });
    assert!(matches!(
        result,
        Err(DomainError::InvalidStateTransition { .. })
    ));
}

#[test]
fn released_schema_replay_rules_preserve_exact_retry_and_reject_overlap() {
    let first = UsageBatchReference {
        period: id("period-1"),
        bucket: id("bucket-1"),
        range: UsageRange::new(id("lane-1"), 1, 2).unwrap(),
        payload_digest: id("digest-1"),
    };
    let exact = first.clone();
    let overlap = UsageBatchReference {
        period: id("period-1"),
        bucket: id("bucket-2"),
        range: UsageRange::new(id("lane-1"), 2, 3).unwrap(),
        payload_digest: id("digest-2"),
    };
    assert_eq!(first.replay_relation(&exact), ReplayRelation::Exact);
    assert_eq!(first.replay_relation(&overlap), ReplayRelation::Conflict);
}

#[test]
fn blank_identifiers_are_refused() {
    assert_eq!(OpaqueId::new(""), Err(DomainError::EmptyIdentifier));
    assert_eq!(OpaqueId::new(" \t\n"), Err(DomainError::EmptyIdentifier));
    assert_eq!(OpaqueId::new("\u{3000}\u{a0}"), Err(DomainError::EmptyIdentifier));
    assert_eq!(OpaqueId::new(" a ").unwrap().as_str(), " a ");
}

#[test]
fn reversed_range_is_refused() {
    assert_eq!(
        UsageRange::new(id("lane-1"), 9, 8),
        Err(DomainError::InvalidRange)
    );
    let single = UsageRange::new(id("lane-1"), 8, 8).unwrap();
    assert_eq!((single.first, single.last), (8, 8));
}

#[test]
fn replay_relation_is_symmetric_and_ignores_bucket() {
    let a = batch("bucket-1", 1, 4, "digest-1");
    let same_other_bucket = batch("bucket-9", 1, 4, "digest-1");
    let adjacent = batch("bucket-1", 5, 9, "digest-2");
    let contained = batch("bucket-1", 2, 3, "digest-1");
    assert_eq!(a.replay_relation(&same_other_bucket), ReplayRelation::Exact);
    assert_eq!(a.replay_relation(&adjacent), ReplayRelation::Distinct);
    assert_eq!(adjacent.replay_relation(&a), ReplayRelation::Distinct);
    assert_eq!(a.replay_relation(&contained), ReplayRelation::Conflict);
    assert_eq!(contained.replay_relation(&a), ReplayRelation::Conflict);
    let other_digest = batch("bucket-1", 1, 4, "digest-2");
    assert_eq!(a.replay_relation(&other_digest), ReplayRelation::Conflict);
    let other_lane = UsageBatchReference {
        range: UsageRange::new(id("lane-2"), 1, 4).unwrap(),
        ..a.clone()
    };
    assert_eq!(a.replay_relation(&other_lane), ReplayRelation::Distinct);
    let other_period = UsageBatchReference {
        period: id("period-2"),
        ..a.clone()
    };
    assert_eq!(a.replay_relation(&other_period), ReplayRelation::Distinct);
}

#[test]
fn states_move_one_stage_at_a_time() {
    let tx = MoveTransactionReference(id("tx-1"));
    let prepared = SubmissionState::Prepared;
    let submitted = SubmissionState::Submitted { transaction: tx.clone() };
    let confirmed = SubmissionState::Confirmed { transaction: tx.clone() };
    let indexed = SubmissionState::Indexed {
        transaction: tx.clone(),
        projection: ProjectionVersion(id("p-1")),
    };
    assert!(prepared.can_transition_to(&submitted));
    assert!(submitted.can_transition_to(&confirmed));
    assert!(confirmed.can_transition_to(&indexed));
    assert!(!prepared.can_transition_to(&indexed));
    assert!(!submitted.can_transition_to(&indexed));
    assert!(!indexed.can_transition_to(&prepared));
    assert!(!confirmed.can_transition_to(&submitted));
    assert!(!submitted.can_transition_to(&submitted));
    assert_eq!(prepared.transaction(), None);
    assert_eq!(indexed.transaction(), Some(&tx));
}

#[test]
fn failed_transition_reports_both_states() {
    let prepared = SubmissionIntent::prepared(
        SubmissionId(id("submission-1")),
        batch("bucket-1", 1, 2, "digest-1"),
        EvidenceReference(id("evidence-1")),
    );
    let next = SubmissionState::Indexed {
        transaction: MoveTransactionReference(id("tx-1")),
        projection: ProjectionVersion(id("p-1")),
    };
    assert_eq!(
        prepared.transition(next.clone()),
        Err(DomainError::InvalidStateTransition {
            from: SubmissionState::Prepared,
            to: next,
        })
    );
}

#[test]
fn error_messages_describe_the_refusal() {
    assert_eq!(
        DomainError::EmptyIdentifier.message(),
        "identifiers must not be empty"
    );
    assert_eq!(
        DomainError::ReplayConflict.message(),
        "usage batch conflicts with an existing replay guard"
    );
    assert_eq!(
        DomainError::InvalidConfiguration("x").message(),
        "invalid service configuration: x"
    );
    assert_eq!(
        DomainError::InvalidStateTransition {
            from: SubmissionState::Prepared,
            to: SubmissionState::Prepared,
        }
        .message(),
        "cannot transition submission from Prepared to Prepared"
    );
    assert_eq!(TESTNET_DISCLAIMER, "Testnet integration only");
}

#[test]
fn refused_transition_message_writes_both_states() {
    let confirmed = SubmissionState::Confirmed {
        transaction: MoveTransactionReference(id("tx-1")),
    };
    assert_eq!(
        DomainError::InvalidStateTransition {
            from: SubmissionState::Prepared,
            to: confirmed,
        }
        .message(),
        r#"cannot transition submission from Prepared to Confirmed { transaction: MoveTransactionReference(OpaqueId("tx-1")) }"#
    );
    let indexed = SubmissionState::Indexed {
        transaction: MoveTransactionReference(id("tx \"2\"")),
        projection: ProjectionVersion(id("projection-1")),
    };
    let submitted = SubmissionState::Submitted {
        transaction: MoveTransactionReference(id("tx-3")),
    };
    assert_eq!(
        DomainError::InvalidStateTransition {
            from: indexed.clone(),
            to: submitted.clone(),
        }
        .message(),
        format!("cannot transition submission from {:?} to {:?}", indexed, submitted)
    );
    assert_eq!(
        DomainError::InvalidStateTransition { from: indexed, to: submitted }.message(),
        r#"cannot transition submission from Indexed { transaction: MoveTransactionReference(OpaqueId("tx \"2\"")), projection: ProjectionVersion(OpaqueId("projection-1")) } to Submitted { transaction: MoveTransactionReference(OpaqueId("tx-3")) }"#
    );
}
