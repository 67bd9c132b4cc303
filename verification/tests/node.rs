use porto::digest::{hex, sha256};
use porto::node::{
    accept_cached, accept_with_digest, capability_entry, retry_result_for_digest,
    staging_entry_for, is_staging_name, order_intents, order_receipts,
    outbox_intent, plan_cache_admission, receipt_staging_entry, redact_diagnostic, retry_result,
    safe_id, AggregateError, CacheAdmission, CacheAdmissionPlan, DeterministicAggregate,
    PrepareResult, SpoolReceipt, UnsafeId,
};

#[test]
fn diagnostics_do_not_expose_supplied_secrets() {
    assert_eq!(
        redact_diagnostic("failed with bearer abc", &["abc", "bearer"]),
        "failed with [REDACTED] [REDACTED]"
    );
}

#[test]
fn redaction_is_left_to_right_and_skips_empty_secrets() {
    assert_eq!(redact_diagnostic("aaa", &["aa"]), "[REDACTED]a");
    assert_eq!(redact_diagnostic("abc", &[""]), "abc");
    assert_eq!(redact_diagnostic("x", &[]), "x");
    assert_eq!(redact_diagnostic("tokentoken", &["token"]), "[REDACTED][REDACTED]");
}

#[test]
fn aggregates_are_ordered() {
    let mut aggregate = DeterministicAggregate::default();
    aggregate.add("z", 1).expect("add");
    aggregate.add("a", 2).expect("add");
    assert_eq!(aggregate.ordered(), vec![("a", 2), ("z", 1)]);
}

#[test]
fn aggregate_adds_to_existing_keys_and_refuses_overflow() {
    let mut aggregate = DeterministicAggregate::default();
    aggregate.add("b", 3).unwrap();
    aggregate.add("b", 4).unwrap();
    aggregate.add("ab", u64::MAX).unwrap();
    assert_eq!(aggregate.add("ab", 1), Err(AggregateError::Overflow));
    assert_eq!(aggregate.ordered(), vec![("ab", u64::MAX), ("b", 7)]);
    let copy = aggregate.clone();
    assert_eq!(copy, aggregate);
}

#[test]
fn hex_is_lowercase_and_two_digits_per_byte() {
    let mut hash = [0u8; 32];
    hash[0] = 0x0f;
    hash[1] = 0xa0;
    hash[31] = 0xff;
    let text = hex(&hash);
    assert_eq!(text.len(), 64);
    assert!(text.starts_with("0fa0"));
    assert!(text.ends_with("ff"));
    assert_eq!(
        hex(&sha256(b"abc")),
        "ba7816bf8f01cfea414140de5dae2223b00361a396177a9cb410ff61f20015ad"
    );
}

#[test]
fn cache_admission_checks_the_digest_first() {
    let digest = sha256(b"music");
    assert!(matches!(
        plan_cache_admission(digest, b"other"),
        CacheAdmissionPlan::Settled(CacheAdmission::DigestMismatch { .. })
    ));
    assert_eq!(
        plan_cache_admission(digest, b"music"),
        CacheAdmissionPlan::StoreUnlessPresent { entry: hex(&digest) }
    );
    assert_eq!(accept_cached(digest, b"music".to_vec()), Some(b"music".to_vec()));
    assert_eq!(accept_cached(digest, b"other".to_vec()), None);
}

#[test]
fn ids_must_be_safe_file_names() {
    assert_eq!(safe_id("batch_1-A"), Ok("batch_1-A".to_string()));
    assert_eq!(safe_id(""), Err(UnsafeId));
    assert_eq!(safe_id("../x"), Err(UnsafeId));
    assert_eq!(safe_id("é"), Err(UnsafeId));
}

#[test]
fn journal_and_spool_names_hide_their_inputs() {
    let entry = capability_entry("opaque-grant");
    assert_eq!(entry, hex(&sha256(b"opaque-grant")));
    let staging = receipt_staging_entry("r_1");
    assert_eq!(staging, format!(".{}.staging", hex(&sha256(b"r_1"))));
    assert!(is_staging_name(&staging));
    assert!(!is_staging_name("r_1"));
    assert!(!is_staging_name(""));
}

#[test]
fn outbox_retry_never_changes_a_body() {
    let intent = outbox_intent("batch_1".to_string(), b"opaque".to_vec());
    assert_eq!(intent.body_digest, sha256(b"opaque"));
    assert_eq!(retry_result(b"opaque", &intent.body_digest), PrepareResult::Existing);
    assert_eq!(retry_result(b"different", &intent.body_digest), PrepareResult::Conflict);
}

#[test]
fn recovered_and_pending_entries_are_sorted_by_id() {
    let receipt = |id: &str| SpoolReceipt {
        id: id.to_string(),
        receipt: id.as_bytes().to_vec(),
        signature: vec![],
    };
    let ordered = order_receipts(vec![receipt("r_2"), receipt("r_10"), receipt("a")]);
    let ids: Vec<&str> = ordered.iter().map(|r| r.id.as_str()).collect();
    assert_eq!(ids, vec!["a", "r_10", "r_2"]);
    let intents = order_intents(vec![
        outbox_intent("b".to_string(), vec![1]),
        outbox_intent("a".to_string(), vec![2]),
    ]);
    assert_eq!(intents[0].id, "a");
    assert_eq!(intents[1].body, vec![1]);
}

#[test]
fn additions_commute() {
    let mut first = DeterministicAggregate::default();
    first.add("k", 1).unwrap();
    first.add("j", 5).unwrap();
    first.add("k", 2).unwrap();
    let mut second = DeterministicAggregate::default();
    second.add("k", 2).unwrap();
    second.add("k", 1).unwrap();
    second.add("j", 5).unwrap();
    assert_eq!(first.ordered(), second.ordered());
    assert_eq!(first.ordered(), vec![("j", 5), ("k", 3)]);
}

#[test]
fn decisions_on_given_digests() {
    let a = [7u8; 32];
    let b = [8u8; 32];
    assert_eq!(accept_with_digest(a, a, vec![1, 2]), Some(vec![1, 2]));
    assert_eq!(accept_with_digest(a, b, vec![1, 2]), None);
    assert_eq!(retry_result_for_digest(&a, &a), PrepareResult::Existing);
    assert_eq!(retry_result_for_digest(&a, &b), PrepareResult::Conflict);
    assert_eq!(staging_entry_for(&a), format!(".{}.staging", "07".repeat(32)));
}
