//! Participant-node foundations for London 0.1.0.
//!
//! The node has no grant issuer, accounting rules, transaction payloads, or
//! Aptos client. It persists opaque evidence and submission intents; the
//! decisions it takes about them are here, the file system work is the
//! caller's.

use vstd::prelude::*;
use vstd::string::{StringExecFns, StringSliceAdditionalSpecFns};
use crate::digest::{hex, hex_text, same_hash, sha256, sha256_digest};
use crate::keyed::{keys_increase, lemma_map_of_at, lemma_map_of_insert, lemma_map_of_key,
    lemma_map_of_update, map_of, Keyed};
use crate::order::{compare_keys, key_lt, key_precedes, lemma_key_lt_irreflexive,
    lemma_key_lt_total, lemma_key_lt_transitive, KeyOrder};
use crate::text::{chars_of, lemma_replaced_pattern_is_gone, lemma_replacement_adds_no_occurrence,
    occurs_at, occurs_in, replace_all, replace_chars, shares_no_char, string_from_chars};

verus! {

/// The outcome of admitting bytes into the verified cache.
#[derive(Debug, Clone, Copy, PartialEq, Eq)]
pub enum CacheAdmission {
    Stored,
    AlreadyPresent,
    DigestMismatch { expected: crate::digest::Hash, actual: crate::digest::Hash },
}

/// What admission into the verified cache comes to once the digest of the
/// offered bytes is known: either it is settled, or the bytes are to be stored
/// in the entry named `entry`, unless that entry already exists.
#[derive(Debug, Clone, PartialEq, Eq)]
pub enum CacheAdmissionPlan {
    Settled(CacheAdmission),
    StoreUnlessPresent { entry: String },
}

/// Cache admission always verifies the caller-provided digest before bytes
/// become visible: bytes whose digest `actual` is not `expected` are refused.
pub fn plan_for_digest(expected: crate::digest::Hash, actual: crate::digest::Hash) -> (p:
    CacheAdmissionPlan)
    ensures
        actual@ != expected@ ==> p == CacheAdmissionPlan::Settled(
            CacheAdmission::DigestMismatch { expected, actual },
        ),
        actual@ == expected@ ==> (p matches CacheAdmissionPlan::StoreUnlessPresent { entry }
            && entry@ == hex_text(expected@)),
{
    if !same_hash(&actual, &expected) {
        return CacheAdmissionPlan::Settled(CacheAdmission::DigestMismatch { expected, actual });
    }
    CacheAdmissionPlan::StoreUnlessPresent { entry: hex(&expected) }
}

/// Plans the admission of `bytes` under the digest `expected`.
pub fn plan_cache_admission(expected: crate::digest::Hash, bytes: &[u8]) -> (p:
    CacheAdmissionPlan)
    ensures
        sha256_digest(bytes@) != expected@ ==> (p matches CacheAdmissionPlan::Settled(
            CacheAdmission::DigestMismatch { expected: e, actual },
        ) && e == expected && actual@ == sha256_digest(bytes@)),
        sha256_digest(bytes@) == expected@ ==> (p matches CacheAdmissionPlan::StoreUnlessPresent {
            entry,
        } && entry@ == hex_text(expected@)),
{
    let actual = sha256(bytes);
    plan_for_digest(expected, actual)
}

/// Bytes read back from the cache are handed out only when their digest
/// `actual` is still the expected one.
pub fn accept_with_digest(expected: crate::digest::Hash, actual: crate::digest::Hash, bytes: Vec<
    u8,
>) -> (r: Option<Vec<u8>>)
    ensures
        r is Some <==> actual@ == expected@,
        r matches Some(b) ==> b@ == bytes@,
{
    if same_hash(&actual, &expected) {
        Some(bytes)
    } else {
        None
    }
}

/// Bytes read back from the cache are handed out only when their digest is
/// still the expected one.
pub fn accept_cached(expected: crate::digest::Hash, bytes: Vec<u8>) -> (r: Option<Vec<u8>>)
    ensures
        r is Some <==> sha256_digest(bytes@) == expected@,
        r matches Some(b) ==> b@ == bytes@,
{
    let actual = sha256(&bytes);
    accept_with_digest(expected, actual, bytes)
}

/// The outcome of consuming an externally issued opaque capability.
#[derive(Debug, Clone, Copy, PartialEq, Eq)]
pub enum ConsumeResult {
    Consumed,
    AlreadyConsumed,
}

/// The journal entry that records the consumption of `capability`: the hex of
/// the digest of its UTF-8 bytes, so the capability itself is never stored.
pub fn capability_entry(capability: &str) -> (e: String)
    ensures
        e@ == hex_text(sha256_digest(capability.spec_bytes())),
{
    hex(&sha256(capability.as_bytes()))
}

/// An id that the node may use as a file name.
pub open spec fn is_safe_id_byte(b: u8) -> bool {
    ||| 0x30 <= b <= 0x39
    ||| 0x41 <= b <= 0x5a
    ||| 0x61 <= b <= 0x7a
    ||| b == 0x2d
    ||| b == 0x5f
}

/// A safe id is non-empty and made of ASCII letters, digits, '-' and '_'.
pub open spec fn is_safe_id(id: Seq<u8>) -> bool {
    &&& id.len() > 0
    &&& forall|i: int| 0 <= i < id.len() ==> is_safe_id_byte(#[trigger] id[i])
}

/// Which ids are safe: exactly the non-empty ones in which every byte is an
/// ASCII digit `'0'..='9'`, an ASCII letter, `'-'` or `'_'`. Every id made of
/// digits alone, `"0"` included, is safe; the empty id and any id holding
/// another byte (a space, a dot, a slash, a byte of a non-ASCII character) are
/// not.
pub proof fn law_safe_ids(id: Seq<u8>)
    ensures
        is_safe_id(id) <==> {
            &&& id.len() > 0
            &&& forall|i: int|
                0 <= i < id.len() ==> {
                    ||| ('0' as u8) <= #[trigger] id[i] <= ('9' as u8)
                    ||| ('a' as u8) <= id[i] <= ('z' as u8)
                    ||| ('A' as u8) <= id[i] <= ('Z' as u8)
                    ||| id[i] == ('-' as u8)
                    ||| id[i] == ('_' as u8)
                }
        },
{
}

/// An id was refused because it is empty or holds other bytes than ASCII
/// letters, digits, '-' and '_'.
#[derive(Debug, Clone, Copy, PartialEq, Eq)]
pub struct UnsafeId;

/// Why an id was refused.
pub const UNSAFE_ID_MESSAGE: &'static str =
    "opaque id must be non-empty ASCII alphanumeric, '-' or '_'";

/// Accepts `id` as a file name when it is a safe id.
pub fn safe_id(id: &str) -> (r: Result<String, UnsafeId>)
    ensures
        r is Ok <==> is_safe_id(id.spec_bytes()),
        r matches Ok(s) ==> s@ == id@,
{
    let bytes = id.as_bytes();
    if bytes.len() == 0 {
        return Err(UnsafeId);
    }
    let mut i: usize = 0;
    while i < bytes.len()
        invariant
            i <= bytes@.len(),
            bytes@ == id.spec_bytes(),
            forall|j: int| 0 <= j < i ==> is_safe_id_byte(#[trigger] bytes@[j]),
        decreases bytes.len() - i,
    {
        let b = bytes[i];
        if !((0x30 <= b && b <= 0x39) || (0x41 <= b && b <= 0x5a) || (0x61 <= b && b <= 0x7a) || b
            == 0x2d || b == 0x5f) {
            assert(!is_safe_id_byte(bytes@[i as int]));
            return Err(UnsafeId);
        }
        i = i + 1;
    }
    Ok(id.to_owned())
}

/// Signed receipt bytes kept in the private spool. The receipt structure and
/// signature algorithm remain owned by the future shared contract.
#[derive(Debug, Clone, PartialEq, Eq)]
pub struct SpoolReceipt {
    pub id: String,
    pub receipt: Vec<u8>,
    pub signature: Vec<u8>,
}

impl Keyed for SpoolReceipt {
    open spec fn key(&self) -> Seq<char> {
        self.id@
    }

    fn key_text(&self) -> (s: &str) {
        self.id.as_str()
    }
}

/// The staging directory for a receipt whose id has the digest `id_digest`:
/// a dot, the hex of the digest, and `.staging`.
pub fn staging_entry_for(id_digest: &crate::digest::Hash) -> (e: String)
    ensures
        e@ == seq!['.'] + hex_text(id_digest@) + ".staging"@,
{
    let digest = hex(id_digest);
    let mut entry = String::from_str(".");
    entry.append(digest.as_str());
    entry.append(".staging");
    proof {
        reveal_strlit(".");
    }
    entry
}

/// The staging directory in which a receipt is written before it is moved
/// into place: a dot, the hex of the digest of the id's bytes, and `.staging`.
pub fn receipt_staging_entry(id: &str) -> (e: String)
    ensures
        e@ == seq!['.'] + hex_text(sha256_digest(id.spec_bytes())) + ".staging"@,
{
    staging_entry_for(&sha256(id.as_bytes()))
}

/// Spool entries whose names start with a dot are staging leftovers, not
/// receipts.
pub fn is_staging_name(name: &str) -> (b: bool)
    ensures
        b == (name@.len() > 0 && name@[0] == '.'),
{
    let chars = chars_of(name);
    chars.len() > 0 && chars[0] == '.'
}

/// Recovered receipts are handed out in the order of their ids.
pub fn order_receipts(receipts: Vec<SpoolReceipt>) -> (r: Vec<SpoolReceipt>)
    ensures
        crate::keyed::sorted_by_key(r@),
        forall|k: Seq<char>|
            #[trigger] crate::keyed::with_key(r@, k) == crate::keyed::with_key(receipts@, k),
        r@.to_multiset() == receipts@.to_multiset(),
{
    crate::keyed::sort_by_key(receipts)
}

/// A persisted exactly-identical retry boundary. `body` is opaque to the node,
/// and an acknowledgement means only that a future transport reported receipt,
/// not Move acceptance, settlement, or listening proof.
#[derive(Debug, Clone, PartialEq, Eq)]
pub struct SubmissionIntent {
    pub id: String,
    pub body: Vec<u8>,
    pub body_digest: crate::digest::Hash,
}

impl Keyed for SubmissionIntent {
    open spec fn key(&self) -> Seq<char> {
        self.id@
    }

    fn key_text(&self) -> (s: &str) {
        self.id.as_str()
    }
}

/// The outcome of preparing a submission in the outbox.
#[derive(Debug, Clone, PartialEq, Eq)]
pub enum PrepareResult {
    Prepared(SubmissionIntent),
    Existing,
    Conflict,
}

/// The outbox intent with id `id` and body `body`, with the body's digest.
pub fn outbox_intent(id: String, body: Vec<u8>) -> (i: SubmissionIntent)
    ensures
        i.id@ == id@,
        i.body@ == body@,
        i.body_digest@ == sha256_digest(body@),
{
    let body_digest = sha256(&body);
    SubmissionIntent { id, body, body_digest }
}

/// Preparing again under an id already in the outbox never changes its body:
/// a stored body whose digest is the new body's is an existing retry, any
/// other body a conflict.
pub fn retry_result_for_digest(
    existing_digest: &crate::digest::Hash,
    body_digest: &crate::digest::Hash,
) -> (r: PrepareResult)
    ensures
        existing_digest@ == body_digest@ ==> r == PrepareResult::Existing,
        existing_digest@ != body_digest@ ==> r == PrepareResult::Conflict,
{
    if same_hash(existing_digest, body_digest) {
        PrepareResult::Existing
    } else {
        PrepareResult::Conflict
    }
}

/// Preparing again under an id already in the outbox never changes its body:
/// the same body is an existing retry, any other body a conflict.
pub fn retry_result(existing: &[u8], body_digest: &crate::digest::Hash) -> (r: PrepareResult)
    ensures
        sha256_digest(existing@) == body_digest@ ==> r == PrepareResult::Existing,
        sha256_digest(existing@) != body_digest@ ==> r == PrepareResult::Conflict,
{
    retry_result_for_digest(&sha256(existing), body_digest)
}

/// Pending intents are handed out in the order of their ids.
pub fn order_intents(intents: Vec<SubmissionIntent>) -> (r: Vec<SubmissionIntent>)
    ensures
        crate::keyed::sorted_by_key(r@),
        forall|k: Seq<char>|
            #[trigger] crate::keyed::with_key(r@, k) == crate::keyed::with_key(intents@, k),
        r@.to_multiset() == intents@.to_multiset(),
{
    crate::keyed::sort_by_key(intents)
}

/// The aggregate fails only when a count would exceed `u64::MAX`.
#[derive(Debug, Clone, Copy, PartialEq, Eq)]
pub enum AggregateError {
    Overflow,
}

/// A deterministic, non-financial local counter. It is suitable for batching
/// diagnostics or opaque evidence references, never accepted usage or payouts.
/// Its view maps each key to its count.
#[derive(Debug, PartialEq, Eq)]
pub struct DeterministicAggregate {
    entries: Vec<(String, u64)>,
}

/// The count of `key`; a key never added counts zero.
pub open spec fn count_of(counts: Map<Seq<char>, u64>, key: Seq<char>) -> int {
    if counts.contains_key(key) {
        counts[key] as int
    } else {
        0
    }
}

/// The counts after adding `units` to the count of `key`.
pub open spec fn with_added(counts: Map<Seq<char>, u64>, key: Seq<char>, units: u64) -> Map<
    Seq<char>,
    u64,
> {
    counts.insert(key, (count_of(counts, key) + units) as u64)
}

/// The aggregate is deterministic: the order in which additions arrive does
/// not change the counts they lead to.
pub proof fn law_additions_commute(
    counts: Map<Seq<char>, u64>,
    k1: Seq<char>,
    u1: u64,
    k2: Seq<char>,
    u2: u64,
)
    requires
        count_of(counts, k1) + u1 + (if k1 == k2 { u2 as int } else { 0 }) <= u64::MAX,
        count_of(counts, k2) + u2 + (if k1 == k2 { u1 as int } else { 0 }) <= u64::MAX,
    ensures
        with_added(with_added(counts, k1, u1), k2, u2) == with_added(
            with_added(counts, k2, u2),
            k1,
            u1,
        ),
{
    assert(with_added(with_added(counts, k1, u1), k2, u2) =~= with_added(
        with_added(counts, k2, u2),
        k1,
        u1,
    ));
}

/// Adding `units` under `key` raises the count of `key` by exactly `units`
/// (a key never added starting at zero) and leaves every other count as it
/// was.
pub proof fn law_addition_counts(counts: Map<Seq<char>, u64>, key: Seq<char>, units: u64, other: Seq<char>)
    requires
        count_of(counts, key) + units <= u64::MAX,
        other != key,
    ensures
        count_of(with_added(counts, key, units), key) == count_of(counts, key) + units,
        count_of(with_added(counts, key, units), other) == count_of(counts, other),
        !counts.contains_key(key) ==> count_of(with_added(counts, key, units), key) == units,
{
}

/// Entries as keys and counts.
pub open spec fn counts_of(entries: Seq<(String, u64)>) -> Seq<(Seq<char>, u64)> {
    entries.map_values(|e: (String, u64)| (e.0@, e.1))
}

/// A listing of keys and counts.
pub open spec fn listing_of(entries: Seq<(&str, u64)>) -> Seq<(Seq<char>, u64)> {
    entries.map_values(|e: (&str, u64)| (e.0@, e.1))
}

impl DeterministicAggregate {
    #[verifier::type_invariant]
    spec fn ordered_by_key(self) -> bool {
        keys_increase(counts_of(self.entries@))
    }

    /// The counts, keyed by text.
    pub closed spec fn counts(self) -> Map<Seq<char>, u64> {
        map_of(counts_of(self.entries@))
    }

    /// Adds `units` to the count of `key`. The count of a new key starts at
    /// zero; a count that would exceed `u64::MAX` leaves the aggregate as it was.
    pub fn add(&mut self, key: &str, units: u64) -> (r: Result<(), AggregateError>)
        ensures
            r is Err <==> count_of(old(self)@, key@) + units > u64::MAX,
            r matches Err(e) ==> e == AggregateError::Overflow && final(self)@ == old(self)@,
            r is Ok ==> final(self)@ == with_added(old(self)@, key@, units),
    {
        proof {
            use_type_invariant(&*self);
        }
        let ghost s = counts_of(self.entries@);
        let mut p: usize = 0;
        while p < self.entries.len() && key_precedes(self.entries[p].0.as_str(), key)
            invariant
                p <= self.entries@.len(),
                s == counts_of(self.entries@),
                keys_increase(s),
                forall|i: int| 0 <= i < p ==> key_lt(#[trigger] s[i].0, key@),
            decreases self.entries.len() - p,
        {
            p = p + 1;
        }
        let found = p < self.entries.len() && match compare_keys(self.entries[p].0.as_str(), key) {
            KeyOrder::Equal => true,
            _ => false,
        };
        if found {
            proof {
                lemma_map_of_at(s, p as int);
            }
            let current = self.entries[p].1;
            match current.checked_add(units) {
                None => Err(AggregateError::Overflow),
                Some(total) => {
                    proof {
                        lemma_map_of_update(s, p as int, (key@, total));
                    }
                    let mut entries: Vec<(String, u64)> = Vec::new();
                    std::mem::swap(&mut entries, &mut self.entries);
                    let name = key.to_owned();
                    entries.set(p, (name, total));
                    proof {
                        assert(counts_of(entries@) =~= s.update(p as int, (key@, total)));
                    }
                    self.entries = entries;
                    Ok(())
                },
            }
        } else {
            proof {
                if p < s.len() {
                    lemma_key_lt_total(key@, s[p as int].0);
                }
                assert forall|i: int| p <= i < s.len() implies key_lt(key@, #[trigger] s[i].0) by {
                    if i > p {
                        lemma_key_lt_transitive(key@, s[p as int].0, s[i].0);
                    }
                }
                if map_of(s).contains_key(key@) {
                    let i = lemma_map_of_key(s, key@);
                    lemma_key_lt_irreflexive(key@);
                }
                lemma_map_of_insert(s, p as int, (key@, units));
            }
            let mut entries: Vec<(String, u64)> = Vec::new();
            std::mem::swap(&mut entries, &mut self.entries);
            entries.insert(p, (key.to_owned(), units));
            proof {
                assert(counts_of(entries@) =~= s.insert(p as int, (key@, units)));
            }
            self.entries = entries;
            Ok(())
        }
    }

    /// The keys with their counts, in key order.
    pub fn ordered(&self) -> (r: Vec<(&str, u64)>)
        ensures
            keys_increase(listing_of(r@)),
            map_of(listing_of(r@)) == self@,
    {
        proof {
            use_type_invariant(self);
        }
        let mut r: Vec<(&str, u64)> = Vec::new();
        let mut i: usize = 0;
        while i < self.entries.len()
            invariant
                i <= self.entries@.len(),
                keys_increase(counts_of(self.entries@)),
                listing_of(r@) =~= counts_of(self.entries@).take(i as int),
            decreases self.entries.len() - i,
        {
            let ghost before = r@;
            let entry = &self.entries[i];
            let name = entry.0.as_str();
            r.push((name, entry.1));
            assert(r@ == before.push((name, entry.1)));
            assert(listing_of(r@) =~= listing_of(before).push((name@, entry.1)));
            i = i + 1;
            assert(counts_of(self.entries@).take(i as int) =~= counts_of(self.entries@).take(
                i - 1,
            ).push((self.entries@[i - 1].0@, self.entries@[i - 1].1)));
        }
        proof {
            assert(counts_of(self.entries@).take(i as int) =~= counts_of(self.entries@));
        }
        r
    }
}

impl View for DeterministicAggregate {
    type V = Map<Seq<char>, u64>;

    open spec fn view(&self) -> Map<Seq<char>, u64> {
        self.counts()
    }
}

impl Clone for DeterministicAggregate {
    fn clone(&self) -> (r: Self)
        ensures
            r@ == self@,
    {
        proof {
            use_type_invariant(self);
        }
        let mut entries: Vec<(String, u64)> = Vec::new();
        let mut i: usize = 0;
        while i < self.entries.len()
            invariant
                i <= self.entries@.len(),
                counts_of(entries@) =~= counts_of(self.entries@).take(i as int),
            decreases self.entries.len() - i,
        {
            let ghost before = entries@;
            let entry = &self.entries[i];
            let name = entry.0.clone();
            entries.push((name, entry.1));
            assert(counts_of(entries@) =~= counts_of(before).push((entry.0@, entry.1)));
            i = i + 1;
            assert(counts_of(self.entries@).take(i as int) =~= counts_of(self.entries@).take(
                i - 1,
            ).push((self.entries@[i - 1].0@, self.entries@[i - 1].1)));
        }
        assert(counts_of(self.entries@).take(i as int) =~= counts_of(self.entries@));
        DeterministicAggregate { entries }
    }
}

impl Default for DeterministicAggregate {
    fn default() -> (r: Self)
        ensures
            r@ == Map::<Seq<char>, u64>::empty(),
    {
        let r = DeterministicAggregate { entries: Vec::new() };
        assert(map_of(counts_of(r.entries@)) =~= Map::<Seq<char>, u64>::empty());
        r
    }
}

/// The texts of the given string slices.
pub open spec fn texts_of(secrets: Seq<&str>) -> Seq<Seq<char>> {
    secrets.map_values(|secret: &str| secret@)
}

/// What replaces a secret in a diagnostic.
pub open spec fn redaction_marker() -> Seq<char> {
    "[REDACTED]"@
}

/// `text` with every occurrence of the non-empty `secret` replaced by the
/// marker; an empty secret leaves the text as it is.
pub open spec fn redact_one(text: Seq<char>, secret: Seq<char>) -> Seq<char> {
    if secret.len() == 0 {
        text
    } else {
        replace_all(text, secret, redaction_marker())
    }
}

/// `message` after redacting each secret in turn, first to last.
pub open spec fn redacted(message: Seq<char>, secrets: Seq<Seq<char>>) -> Seq<char>
    decreases secrets.len(),
{
    if secrets.len() == 0 {
        message
    } else {
        redact_one(redacted(message, secrets.drop_last()), secrets.last())
    }
}

/// Redacts values before diagnostics leave the node. Keep structured receipt
/// content and credentials out of diagnostic messages entirely.
pub fn redact_diagnostic(message: &str, secrets: &[&str]) -> (r: String)
    ensures
        r@ == redacted(message@, texts_of(secrets@)),
{
    let marker = chars_of("[REDACTED]");
    let mut text = chars_of(message);
    let mut i: usize = 0;
    while i < secrets.len()
        invariant
            i <= secrets@.len(),
            marker@ == redaction_marker(),
            text@ == redacted(message@, texts_of(secrets@).take(i as int)),
        decreases secrets.len() - i,
    {
        let secret = secrets[i];
        proof {
            assert(texts_of(secrets@).take(i + 1).drop_last() =~= texts_of(secrets@).take(i as int));
        }
        if !secret.is_empty() {
            let pattern = chars_of(secret);
            text = replace_chars(&text, &pattern, &marker);
        }
        i = i + 1;
    }
    proof {
        assert(texts_of(secrets@).take(i as int) =~= texts_of(secrets@));
    }
    string_from_chars(&text)
}

/// Diagnostics do not expose supplied secrets: when no secret shares a
/// character with the redaction marker, none of the non-empty secrets occurs
/// in the redacted message.
pub proof fn law_redaction_hides_secrets(message: Seq<char>, secrets: Seq<Seq<char>>, k: int)
    requires
        0 <= k < secrets.len(),
        secrets[k].len() > 0,
        forall|j: int| 0 <= j < secrets.len() ==> shares_no_char(#[trigger] secrets[j], redaction_marker()),
    ensures
        !occurs_in(redacted(message, secrets), secrets[k]),
    decreases secrets.len(),
{
    reveal_strlit("[REDACTED]");
    let previous = redacted(message, secrets.drop_last());
    let last = secrets.last();
    assert(shares_no_char(last, redaction_marker()));
    if k == secrets.len() - 1 {
        lemma_replaced_pattern_is_gone(previous, last, redaction_marker());
    } else {
        law_redaction_hides_secrets(message, secrets.drop_last(), k);
        if last.len() > 0 && occurs_in(redacted(message, secrets), secrets[k]) {
            let i = choose|i: int| occurs_at(redacted(message, secrets), secrets[k], i);
            assert(shares_no_char(secrets[k], redaction_marker()));
            lemma_replacement_adds_no_occurrence(
                previous,
                last,
                redaction_marker(),
                secrets[k],
                i,
            );
        }
    }
}


/// Secrets are applied in the order given, first to last: no secrets leave the
/// message as it is, one secret redacts its own occurrences, and redacting
/// with `first` followed by `rest` is redacting `rest` in the text from which
/// `first` was already redacted. So a shorter secret listed after a longer one
/// that contains it can no longer expose the longer one's tail.
pub proof fn law_secrets_apply_in_order(
    message: Seq<char>,
    first: Seq<char>,
    rest: Seq<Seq<char>>,
)
    ensures
        redacted(message, Seq::<Seq<char>>::empty()) == message,
        redacted(message, seq![first]) == redact_one(message, first),
        redacted(message, seq![first] + rest) == redacted(redact_one(message, first), rest),
    decreases rest.len(),
{
    let one = seq![first];
    assert(one.drop_last() =~= Seq::<Seq<char>>::empty());
    assert(redacted(message, one.drop_last()) == message);
    assert(one.last() == first);
    if rest.len() == 0 {
        assert(one + rest =~= one);
    } else {
        law_secrets_apply_in_order(message, first, rest.drop_last());
        assert((one + rest).drop_last() =~= one + rest.drop_last());
        assert((one + rest).last() == rest.last());
    }
}
} // verus!
