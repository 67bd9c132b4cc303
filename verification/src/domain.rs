//! Contract-independent domain boundaries for the London coordinator.
//!
//! Move remains the authority for allocation, obligations, and payout state.
//! This module holds no asset amounts, payout calculations, transaction
//! payloads, or shared Move schema types: only opaque identifiers, the replay
//! rule of the released usage-batch schema, and the submission state machine.

use vstd::prelude::*;
use vstd::std_specs::cmp::PartialEqSpecImpl;
use vstd::string::StringExecFns;
use crate::text::{is_blank, str_is_blank};

verus! {

/// Testnet is an integration environment. It must never be presented as a
/// production settlement environment.
pub const TESTNET_DISCLAIMER: &'static str = "Testnet integration only";

/// An identifier whose content the coordinator never interprets. It is never
/// blank: it holds at least one character that is not whitespace.
#[derive(Debug, Eq, PartialOrd, Ord, Hash)]
pub struct OpaqueId(String);

impl OpaqueId {
    #[verifier::type_invariant]
    spec fn not_blank(self) -> bool {
        !is_blank(self.0@)
    }

    /// The characters of the identifier.
    pub closed spec fn text(self) -> Seq<char> {
        self.0@
    }

    /// Accepts `value` as an identifier unless it is empty or only whitespace.
    pub fn new(value: &str) -> (r: Result<OpaqueId, DomainError>)
        ensures
            r is Err <==> is_blank(value@),
            r matches Ok(id) ==> id@ == value@,
            r matches Err(e) ==> e == DomainError::EmptyIdentifier,
    {
        if str_is_blank(value) {
            return Err(DomainError::EmptyIdentifier);
        }
        Ok(OpaqueId(value.to_owned()))
    }

    /// The text of the identifier.
    pub fn as_str(&self) -> (s: &str)
        ensures
            s@ == self@,
            !is_blank(s@),
    {
        proof {
            use_type_invariant(self);
        }
        self.0.as_str()
    }
}

impl View for OpaqueId {
    type V = Seq<char>;

    open spec fn view(&self) -> Seq<char> {
        self.text()
    }
}

impl Clone for OpaqueId {
    fn clone(&self) -> (r: Self)
        ensures
            r@ == self@,
    {
        proof {
            use_type_invariant(self);
        }
        OpaqueId(self.0.clone())
    }
}

impl PartialEq for OpaqueId {
    fn eq(&self, other: &Self) -> (r: bool) {
        self.0 == other.0
    }
}

impl PartialEqSpecImpl for OpaqueId {
    open spec fn obeys_eq_spec() -> bool {
        true
    }

    open spec fn eq_spec(&self, other: &Self) -> bool {
        self@ == other@
    }
}

/// The reasons a domain operation is refused.
#[derive(Clone, Debug, Eq, PartialEq)]
pub enum DomainError {
    EmptyIdentifier,
    InvalidRange,
    ReplayConflict,
    InvalidStateTransition { from: SubmissionState, to: SubmissionState },
    ConflictingIntent,
    MissingIntent,
    InvalidConfiguration(&'static str),
}

/// Error types into which a domain refusal can be turned. A store whose errors
/// are of such a type has its refusals handed back to callers in that type.
pub trait FromDomainError: Sized {
    /// The error that the refusal `e` becomes.
    spec fn from_domain_error_spec(e: DomainError) -> Self;

    /// Turns the refusal `e` into an error of this type.
    fn from_domain_error(e: DomainError) -> (r: Self)
        ensures
            r == Self::from_domain_error_spec(e),
    ;
}

impl FromDomainError for DomainError {
    /// A domain refusal stays what it is.
    open spec fn from_domain_error_spec(e: DomainError) -> DomainError {
        e
    }

    fn from_domain_error(e: DomainError) -> (r: DomainError) {
        e
    }
}

/// A participant of the protocol.
#[derive(Debug, Eq, PartialOrd, Ord, Hash)]
pub struct ParticipantId(pub OpaqueId);

impl View for ParticipantId {
    type V = Seq<char>;

    open spec fn view(&self) -> Seq<char> {
        self.0@
    }
}

impl Clone for ParticipantId {
    fn clone(&self) -> (r: Self)
        ensures
            r@ == self@,
    {
        ParticipantId(self.0.clone())
    }
}

impl PartialEq for ParticipantId {
    fn eq(&self, other: &Self) -> (r: bool) {
        self.0 == other.0
    }
}

impl PartialEqSpecImpl for ParticipantId {
    open spec fn obeys_eq_spec() -> bool {
        true
    }

    open spec fn eq_spec(&self, other: &Self) -> bool {
        self@ == other@
    }
}

/// An item of the music catalogue.
#[derive(Debug, Eq, PartialOrd, Ord, Hash)]
pub struct CatalogueItemId(pub OpaqueId);

impl View for CatalogueItemId {
    type V = Seq<char>;

    open spec fn view(&self) -> Seq<char> {
        self.0@
    }
}

impl Clone for CatalogueItemId {
    fn clone(&self) -> (r: Self)
        ensures
            r@ == self@,
    {
        CatalogueItemId(self.0.clone())
    }
}

impl PartialEq for CatalogueItemId {
    fn eq(&self, other: &Self) -> (r: bool) {
        self.0 == other.0
    }
}

impl PartialEqSpecImpl for CatalogueItemId {
    open spec fn obeys_eq_spec() -> bool {
        true
    }

    open spec fn eq_spec(&self, other: &Self) -> bool {
        self@ == other@
    }
}

/// A reference to privately retained evidence.
#[derive(Debug, Eq, PartialOrd, Ord, Hash)]
pub struct EvidenceReference(pub OpaqueId);

impl View for EvidenceReference {
    type V = Seq<char>;

    open spec fn view(&self) -> Seq<char> {
        self.0@
    }
}

impl Clone for EvidenceReference {
    fn clone(&self) -> (r: Self)
        ensures
            r@ == self@,
    {
        EvidenceReference(self.0.clone())
    }
}

impl PartialEq for EvidenceReference {
    fn eq(&self, other: &Self) -> (r: bool) {
        self.0 == other.0
    }
}

impl PartialEqSpecImpl for EvidenceReference {
    open spec fn obeys_eq_spec() -> bool {
        true
    }

    open spec fn eq_spec(&self, other: &Self) -> bool {
        self@ == other@
    }
}

/// The identity of a submission intent.
#[derive(Debug, Eq, PartialOrd, Ord, Hash)]
pub struct SubmissionId(pub OpaqueId);

impl View for SubmissionId {
    type V = Seq<char>;

    open spec fn view(&self) -> Seq<char> {
        self.0@
    }
}

impl Clone for SubmissionId {
    fn clone(&self) -> (r: Self)
        ensures
            r@ == self@,
    {
        SubmissionId(self.0.clone())
    }
}

impl PartialEq for SubmissionId {
    fn eq(&self, other: &Self) -> (r: bool) {
        self.0 == other.0
    }
}

impl PartialEqSpecImpl for SubmissionId {
    open spec fn obeys_eq_spec() -> bool {
        true
    }

    open spec fn eq_spec(&self, other: &Self) -> bool {
        self@ == other@
    }
}

/// A provider-side billing authorisation reference.
#[derive(Debug, Eq, PartialOrd, Ord, Hash)]
pub struct BillingAuthorisationReference(pub OpaqueId);

impl View for BillingAuthorisationReference {
    type V = Seq<char>;

    open spec fn view(&self) -> Seq<char> {
        self.0@
    }
}

impl Clone for BillingAuthorisationReference {
    fn clone(&self) -> (r: Self)
        ensures
            r@ == self@,
    {
        BillingAuthorisationReference(self.0.clone())
    }
}

impl PartialEq for BillingAuthorisationReference {
    fn eq(&self, other: &Self) -> (r: bool) {
        self.0 == other.0
    }
}

impl PartialEqSpecImpl for BillingAuthorisationReference {
    open spec fn obeys_eq_spec() -> bool {
        true
    }

    open spec fn eq_spec(&self, other: &Self) -> bool {
        self@ == other@
    }
}

/// An opaque reference to a Move transaction.
#[derive(Debug, Eq, PartialOrd, Ord, Hash)]
pub struct MoveTransactionReference(pub OpaqueId);

impl View for MoveTransactionReference {
    type V = Seq<char>;

    open spec fn view(&self) -> Seq<char> {
        self.0@
    }
}

impl Clone for MoveTransactionReference {
    fn clone(&self) -> (r: Self)
        ensures
            r@ == self@,
    {
        MoveTransactionReference(self.0.clone())
    }
}

impl PartialEq for MoveTransactionReference {
    fn eq(&self, other: &Self) -> (r: bool) {
        self.0 == other.0
    }
}

impl PartialEqSpecImpl for MoveTransactionReference {
    open spec fn obeys_eq_spec() -> bool {
        true
    }

    open spec fn eq_spec(&self, other: &Self) -> bool {
        self@ == other@
    }
}

/// A version of a projection of Move state.
#[derive(Debug, Eq, PartialOrd, Ord, Hash)]
pub struct ProjectionVersion(pub OpaqueId);

impl View for ProjectionVersion {
    type V = Seq<char>;

    open spec fn view(&self) -> Seq<char> {
        self.0@
    }
}

impl Clone for ProjectionVersion {
    fn clone(&self) -> (r: Self)
        ensures
            r@ == self@,
    {
        ProjectionVersion(self.0.clone())
    }
}

impl PartialEq for ProjectionVersion {
    fn eq(&self, other: &Self) -> (r: bool) {
        self.0 == other.0
    }
}

impl PartialEqSpecImpl for ProjectionVersion {
    open spec fn obeys_eq_spec() -> bool {
        true
    }

    open spec fn eq_spec(&self, other: &Self) -> bool {
        self@ == other@
    }
}

/// What a usage range is, as mathematical values.
pub struct RangeModel {
    pub lane: Seq<char>,
    pub first: u64,
    pub last: u64,
}

/// What a usage-batch reference is, as mathematical values.
pub struct BatchModel {
    pub period: Seq<char>,
    pub bucket: Seq<char>,
    pub range: RangeModel,
    pub payload_digest: Seq<char>,
}

/// What a submission state is, as mathematical values.
pub enum StateModel {
    Prepared,
    Submitted { transaction: Seq<char> },
    Confirmed { transaction: Seq<char> },
    Indexed { transaction: Seq<char>, projection: Seq<char> },
}

/// What a submission intent is, as mathematical values.
pub struct IntentModel {
    pub id: Seq<char>,
    pub usage_batch: BatchModel,
    pub evidence: Seq<char>,
    pub state: StateModel,
}

/// What a projection cursor is, as mathematical values.
pub struct CursorModel {
    pub projection: Seq<char>,
    pub last_indexed_submission: Option<Seq<char>>,
}

/// The text that `Debug` formatting gives a string slice: the characters of
/// the slice between double quotes, each escaped as `str`'s `Debug` escapes
/// it.
pub uninterp spec fn str_debug_text(s: Seq<char>) -> Seq<char>;

/// Formats a string slice with `str`'s `Debug` implementation
/// (`format!("{:?}", ..)`). The contract names the text: it depends on the
/// characters of the slice alone; the escaping rules are not stated.
#[verifier::external_body]
fn quoted(s: &str) -> (r: String)
    ensures
        r@ == str_debug_text(s@),
{
    format!("{:?}", s)
}

/// How a reference of kind `kind` (a tuple struct around an `OpaqueId`)
/// holding the identifier `id` is written in a state's text.
pub open spec fn reference_text(kind: Seq<char>, id: Seq<char>) -> Seq<char> {
    kind + "(OpaqueId("@ + str_debug_text(id) + "))"@
}

/// The text of a submission state: the variant's name, then its fields in
/// braces, each field a reference written by `reference_text`.
pub open spec fn state_text(state: StateModel) -> Seq<char> {
    match state {
        StateModel::Prepared => "Prepared"@,
        StateModel::Submitted { transaction } => "Submitted { transaction: "@ + reference_text(
            "MoveTransactionReference"@,
            transaction,
        ) + " }"@,
        StateModel::Confirmed { transaction } => "Confirmed { transaction: "@ + reference_text(
            "MoveTransactionReference"@,
            transaction,
        ) + " }"@,
        StateModel::Indexed { transaction, projection } => "Indexed { transaction: "@
            + reference_text("MoveTransactionReference"@, transaction) + ", projection: "@
            + reference_text("ProjectionVersion"@, projection) + " }"@,
    }
}

/// Appends the text of a reference of kind `kind` holding `id` to `out`.
fn push_reference(out: &mut String, kind: &str, id: &OpaqueId)
    ensures
        final(out)@ == old(out)@ + reference_text(kind@, id@),
{
    out.append(kind);
    out.append("(OpaqueId(");
    let inner = quoted(id.as_str());
    out.append(inner.as_str());
    out.append("))");
}

/// Appends the text of `state` to `out`.
fn push_state(out: &mut String, state: &SubmissionState)
    ensures
        final(out)@ == old(out)@ + state_text(state@),
{
    match state {
        SubmissionState::Prepared => out.append("Prepared"),
        SubmissionState::Submitted { transaction } => {
            out.append("Submitted { transaction: ");
            push_reference(out, "MoveTransactionReference", &transaction.0);
            out.append(" }");
        },
        SubmissionState::Confirmed { transaction } => {
            out.append("Confirmed { transaction: ");
            push_reference(out, "MoveTransactionReference", &transaction.0);
            out.append(" }");
        },
        SubmissionState::Indexed { transaction, projection } => {
            out.append("Indexed { transaction: ");
            push_reference(out, "MoveTransactionReference", &transaction.0);
            out.append(", projection: ");
            push_reference(out, "ProjectionVersion", &projection.0);
            out.append(" }");
        },
    }
}

impl DomainError {
    /// The human-readable description of the error.
    pub fn message(&self) -> (m: String)
        ensures
            self is EmptyIdentifier ==> m@ == "identifiers must not be empty"@,
            self is InvalidRange ==> m@ == "usage range must be ordered and non-empty"@,
            self is ReplayConflict ==> m@ == "usage batch conflicts with an existing replay guard"@,
            self matches DomainError::InvalidStateTransition { from, to } ==> m@
                == "cannot transition submission from "@ + state_text(from@) + " to "@
                + state_text(to@),
            self is ConflictingIntent ==> m@ == "a conflicting durable intent already exists"@,
            self is MissingIntent ==> m@ == "submission intent was not found"@,
            self matches DomainError::InvalidConfiguration(detail) ==> m@
                == "invalid service configuration: "@ + detail@,
    {
        match self {
            DomainError::EmptyIdentifier => String::from_str("identifiers must not be empty"),
            DomainError::InvalidRange => String::from_str(
                "usage range must be ordered and non-empty",
            ),
            DomainError::ReplayConflict => String::from_str(
                "usage batch conflicts with an existing replay guard",
            ),
            DomainError::InvalidStateTransition { from, to } => {
                let mut m = String::from_str("cannot transition submission from ");
                push_state(&mut m, from);
                m.append(" to ");
                push_state(&mut m, to);
                m
            },
            DomainError::ConflictingIntent => String::from_str(
                "a conflicting durable intent already exists",
            ),
            DomainError::MissingIntent => String::from_str("submission intent was not found"),
            DomainError::InvalidConfiguration(detail) => {
                let mut m = String::from_str("invalid service configuration: ");
                m.append(detail);
                m
            },
        }
    }
}

/// A bounded source range supplied by the private evidence pipeline. Its
/// interpretation and aggregate contents are defined by the Move package;
/// services retain only this replay boundary.
#[derive(Debug, Eq)]
pub struct UsageRange {
    pub lane: OpaqueId,
    pub first: u64,
    pub last: u64,
}

impl View for UsageRange {
    type V = RangeModel;

    open spec fn view(&self) -> RangeModel {
        RangeModel { lane: self.lane@, first: self.first, last: self.last }
    }
}

impl UsageRange {
    /// A range from `first` to `last`, both included; refused when `first`
    /// comes after `last`.
    pub fn new(lane: OpaqueId, first: u64, last: u64) -> (r: Result<UsageRange, DomainError>)
        ensures
            r is Err <==> first > last,
            r matches Ok(range) ==> range@ == (RangeModel { lane: lane@, first, last }),
            r matches Err(e) ==> e == DomainError::InvalidRange,
    {
        if first > last {
            return Err(DomainError::InvalidRange);
        }
        Ok(UsageRange { lane, first, last })
    }
}

impl Clone for UsageRange {
    fn clone(&self) -> (r: Self)
        ensures
            r@ == self@,
    {
        UsageRange { lane: self.lane.clone(), first: self.first, last: self.last }
    }
}

impl PartialEq for UsageRange {
    fn eq(&self, other: &Self) -> (r: bool) {
        self.lane == other.lane && self.first == other.first && self.last == other.last
    }
}

impl PartialEqSpecImpl for UsageRange {
    open spec fn obeys_eq_spec() -> bool {
        true
    }

    open spec fn eq_spec(&self, other: &Self) -> bool {
        self@ == other@
    }
}

/// A reference to the released `london.v1` usage-batch schema: coordinator
/// persistence metadata, not a replacement for the shared schema.
#[derive(Debug, Eq)]
pub struct UsageBatchReference {
    pub period: OpaqueId,
    pub bucket: OpaqueId,
    pub range: UsageRange,
    pub payload_digest: OpaqueId,
}

impl View for UsageBatchReference {
    type V = BatchModel;

    open spec fn view(&self) -> BatchModel {
        BatchModel {
            period: self.period@,
            bucket: self.bucket@,
            range: self.range@,
            payload_digest: self.payload_digest@,
        }
    }
}

impl Clone for UsageBatchReference {
    fn clone(&self) -> (r: Self)
        ensures
            r@ == self@,
    {
        UsageBatchReference {
            period: self.period.clone(),
            bucket: self.bucket.clone(),
            range: self.range.clone(),
            payload_digest: self.payload_digest.clone(),
        }
    }
}

impl PartialEq for UsageBatchReference {
    fn eq(&self, other: &Self) -> (r: bool) {
        self.period == other.period && self.bucket == other.bucket && self.range == other.range
            && self.payload_digest == other.payload_digest
    }
}

impl PartialEqSpecImpl for UsageBatchReference {
    open spec fn obeys_eq_spec() -> bool {
        true
    }

    open spec fn eq_spec(&self, other: &Self) -> bool {
        self@ == other@
    }
}

/// How two usage batches relate under the replay rule.
#[derive(Clone, Copy, Debug, PartialEq, Eq)]
pub enum ReplayRelation {
    Exact,
    Conflict,
    Distinct,
}

/// Both ranges share at least one position.
pub open spec fn ranges_overlap(a: RangeModel, b: RangeModel) -> bool {
    a.first <= b.last && b.first <= a.last
}

/// The released schema's replay rule. Batches of different periods or lanes
/// never interfere; within a period and lane, the same range with the same
/// payload digest is an exact retry, and any other overlapping range is a
/// conflict. The bucket takes no part in the rule.
pub open spec fn replay_relation_of(a: BatchModel, b: BatchModel) -> ReplayRelation {
    if a.period != b.period || a.range.lane != b.range.lane {
        ReplayRelation::Distinct
    } else if a.range.first == b.range.first && a.range.last == b.range.last && a.payload_digest
        == b.payload_digest {
        ReplayRelation::Exact
    } else if ranges_overlap(a.range, b.range) {
        ReplayRelation::Conflict
    } else {
        ReplayRelation::Distinct
    }
}

impl UsageBatchReference {
    /// This is the released schema's replay rule: an exact range and digest is
    /// idempotent, while an overlapping range in the same period and lane is a
    /// conflict.
    pub fn replay_relation(&self, other: &Self) -> (r: ReplayRelation)
        ensures
            r == replay_relation_of(self@, other@),
    {
        if self.period != other.period || self.range.lane != other.range.lane {
            return ReplayRelation::Distinct;
        }
        if self.range.first == other.range.first && self.range.last == other.range.last
            && self.payload_digest == other.payload_digest {
            return ReplayRelation::Exact;
        }
        if self.range.first <= other.range.last && other.range.first <= self.range.last {
            return ReplayRelation::Conflict;
        }
        ReplayRelation::Distinct
    }
}

/// The replay rule does not depend on the order of its arguments.
pub proof fn lemma_replay_relation_symmetric(a: BatchModel, b: BatchModel)
    ensures
        replay_relation_of(a, b) == replay_relation_of(b, a),
{
}

/// Every batch is an exact retry of itself.
pub proof fn lemma_replay_relation_reflexive(a: BatchModel)
    ensures
        replay_relation_of(a, a) == ReplayRelation::Exact,
{
}

/// Two batches that are each an exact retry of a third are exact retries of
/// each other.
pub proof fn lemma_exact_retry_transitive(a: BatchModel, b: BatchModel, c: BatchModel)
    requires
        replay_relation_of(a, c) == ReplayRelation::Exact,
        replay_relation_of(b, c) == ReplayRelation::Exact,
    ensures
        replay_relation_of(a, b) == ReplayRelation::Exact,
{
}

/// A batch that is not distinct from a batch `c` is not distinct from any
/// exact retry of `c` either: exact retries interfere with the same batches.
pub proof fn lemma_exact_retry_interferes_alike(a: BatchModel, b: BatchModel, c: BatchModel)
    requires
        replay_relation_of(a, c) == ReplayRelation::Exact,
        replay_relation_of(b, c) != ReplayRelation::Distinct,
    ensures
        replay_relation_of(b, a) != ReplayRelation::Distinct,
{
}

/// The replay rule in full. Two batches are an exact retry exactly when period,
/// lane, both bounds of the range and the payload digest agree. They are in
/// conflict exactly when they share period and lane, are not an exact retry,
/// and their ranges share at least one position. Otherwise they are distinct:
/// periods or lanes differ, or the ranges share no position.
pub proof fn law_replay_rule(a: BatchModel, b: BatchModel)
    ensures
        replay_relation_of(a, b) == ReplayRelation::Exact <==> {
            &&& a.period == b.period
            &&& a.range.lane == b.range.lane
            &&& a.range.first == b.range.first
            &&& a.range.last == b.range.last
            &&& a.payload_digest == b.payload_digest
        },
        replay_relation_of(a, b) == ReplayRelation::Conflict <==> {
            &&& a.period == b.period
            &&& a.range.lane == b.range.lane
            &&& !(a.range.first == b.range.first && a.range.last == b.range.last
                && a.payload_digest == b.payload_digest)
            &&& a.range.first <= b.range.last
            &&& b.range.first <= a.range.last
        },
        replay_relation_of(a, b) == ReplayRelation::Distinct <==> {
            ||| a.period != b.period
            ||| a.range.lane != b.range.lane
            ||| (!(a.range.first == b.range.first && a.range.last == b.range.last
                && a.payload_digest == b.payload_digest) && (a.range.last < b.range.first
                || b.range.last < a.range.first))
        },
{
}

/// The lifecycle of a submission. Confirmation and indexing are distinct,
/// separately recorded facts.
#[derive(Debug, Eq)]
pub enum SubmissionState {
    Prepared,
    Submitted { transaction: MoveTransactionReference },
    Confirmed { transaction: MoveTransactionReference },
    Indexed { transaction: MoveTransactionReference, projection: ProjectionVersion },
}

impl View for SubmissionState {
    type V = StateModel;

    open spec fn view(&self) -> StateModel {
        match self {
            SubmissionState::Prepared => StateModel::Prepared,
            SubmissionState::Submitted { transaction } => StateModel::Submitted {
                transaction: transaction@,
            },
            SubmissionState::Confirmed { transaction } => StateModel::Confirmed {
                transaction: transaction@,
            },
            SubmissionState::Indexed { transaction, projection } => StateModel::Indexed {
                transaction: transaction@,
                projection: projection@,
            },
        }
    }
}

impl Clone for SubmissionState {
    fn clone(&self) -> (r: Self)
        ensures
            r@ == self@,
    {
        match self {
            SubmissionState::Prepared => SubmissionState::Prepared,
            SubmissionState::Submitted { transaction } => SubmissionState::Submitted {
                transaction: transaction.clone(),
            },
            SubmissionState::Confirmed { transaction } => SubmissionState::Confirmed {
                transaction: transaction.clone(),
            },
            SubmissionState::Indexed { transaction, projection } => SubmissionState::Indexed {
                transaction: transaction.clone(),
                projection: projection.clone(),
            },
        }
    }
}

impl PartialEq for SubmissionState {
    fn eq(&self, other: &Self) -> (r: bool) {
        match (self, other) {
            (SubmissionState::Prepared, SubmissionState::Prepared) => true,
            (
                SubmissionState::Submitted { transaction: a },
                SubmissionState::Submitted { transaction: b },
            ) => a == b,
            (
                SubmissionState::Confirmed { transaction: a },
                SubmissionState::Confirmed { transaction: b },
            ) => a == b,
            (
                SubmissionState::Indexed { transaction: a, projection: p },
                SubmissionState::Indexed { transaction: b, projection: q },
            ) => a == b && p == q,
            _ => false,
        }
    }
}

impl PartialEqSpecImpl for SubmissionState {
    open spec fn obeys_eq_spec() -> bool {
        true
    }

    open spec fn eq_spec(&self, other: &Self) -> bool {
        self@ == other@
    }
}

/// The only moves of the lifecycle: prepared to submitted, submitted to
/// confirmed, confirmed to indexed.
pub open spec fn can_step(from: StateModel, to: StateModel) -> bool {
    ||| from is Prepared && to is Submitted
    ||| from is Submitted && to is Confirmed
    ||| from is Confirmed && to is Indexed
}

/// The position of a state in the lifecycle.
pub open spec fn stage(s: StateModel) -> nat {
    match s {
        StateModel::Prepared => 0,
        StateModel::Submitted { .. } => 1,
        StateModel::Confirmed { .. } => 2,
        StateModel::Indexed { .. } => 3,
    }
}

/// The transaction a state refers to; a prepared intent has none yet.
pub open spec fn transaction_of(s: StateModel) -> Option<Seq<char>> {
    match s {
        StateModel::Prepared => None,
        StateModel::Submitted { transaction } => Some(transaction),
        StateModel::Confirmed { transaction } => Some(transaction),
        StateModel::Indexed { transaction, .. } => Some(transaction),
    }
}

/// A move of the lifecycle advances it by exactly one stage, and every move
/// from one stage to the next is allowed: no stage can be skipped or revisited.
pub proof fn lemma_step_advances_one_stage(from: StateModel, to: StateModel)
    ensures
        can_step(from, to) <==> stage(to) == stage(from) + 1,
{
}

/// The lifecycle runs prepared, submitted, confirmed, indexed, one step at a
/// time and only forwards: each state may move to the next one, whatever
/// references the next one carries; no state moves to itself, back, or over a
/// stage; nothing moves to prepared and an indexed submission moves nowhere.
pub proof fn law_lifecycle(from: StateModel, to: StateModel, t: Seq<char>, u: Seq<char>, p: Seq<char>)
    ensures
        can_step(StateModel::Prepared, StateModel::Submitted { transaction: t }),
        can_step(StateModel::Submitted { transaction: t }, StateModel::Confirmed { transaction: u }),
        can_step(
            StateModel::Confirmed { transaction: t },
            StateModel::Indexed { transaction: u, projection: p },
        ),
        !can_step(from, from),
        to is Prepared ==> !can_step(from, to),
        from is Indexed ==> !can_step(from, to),
        from is Prepared && can_step(from, to) ==> to is Submitted,
        from is Submitted && can_step(from, to) ==> to is Confirmed,
        from is Confirmed && can_step(from, to) ==> to is Indexed,
{
}

impl SubmissionState {
    pub fn can_transition_to(&self, next: &Self) -> (b: bool)
        ensures
            b == can_step(self@, next@),
    {
        match (self, next) {
            (SubmissionState::Prepared, SubmissionState::Submitted { .. }) => true,
            (SubmissionState::Submitted { .. }, SubmissionState::Confirmed { .. }) => true,
            (SubmissionState::Confirmed { .. }, SubmissionState::Indexed { .. }) => true,
            _ => false,
        }
    }

    pub fn transaction(&self) -> (t: Option<&MoveTransactionReference>)
        ensures
            t is None <==> self@ is Prepared,
            t matches Some(tx) ==> transaction_of(self@) == Some(tx@),
    {
        match self {
            SubmissionState::Prepared => None,
            SubmissionState::Submitted { transaction } => Some(transaction),
            SubmissionState::Confirmed { transaction } => Some(transaction),
            SubmissionState::Indexed { transaction, .. } => Some(transaction),
        }
    }
}

/// The durable, idempotent instruction to submit a private-evidence-backed,
/// bounded usage range. It deliberately has no Move entry-function payload.
#[derive(Debug, Eq)]
pub struct SubmissionIntent {
    pub id: SubmissionId,
    pub usage_batch: UsageBatchReference,
    pub evidence: EvidenceReference,
    pub state: SubmissionState,
}

impl View for SubmissionIntent {
    type V = IntentModel;

    open spec fn view(&self) -> IntentModel {
        IntentModel {
            id: self.id@,
            usage_batch: self.usage_batch@,
            evidence: self.evidence@,
            state: self.state@,
        }
    }
}

impl Clone for SubmissionIntent {
    fn clone(&self) -> (r: Self)
        ensures
            r@ == self@,
    {
        SubmissionIntent {
            id: self.id.clone(),
            usage_batch: self.usage_batch.clone(),
            evidence: self.evidence.clone(),
            state: self.state.clone(),
        }
    }
}

impl PartialEq for SubmissionIntent {
    fn eq(&self, other: &Self) -> (r: bool) {
        self.id == other.id && self.usage_batch == other.usage_batch && self.evidence
            == other.evidence && self.state == other.state
    }
}

impl PartialEqSpecImpl for SubmissionIntent {
    open spec fn obeys_eq_spec() -> bool {
        true
    }

    open spec fn eq_spec(&self, other: &Self) -> bool {
        self@ == other@
    }
}

impl SubmissionIntent {
    /// A new intent, in the prepared state.
    pub fn prepared(id: SubmissionId, usage_batch: UsageBatchReference, evidence: EvidenceReference)
        -> (r: SubmissionIntent)
        ensures
            r@ == (IntentModel {
                id: id@,
                usage_batch: usage_batch@,
                evidence: evidence@,
                state: StateModel::Prepared,
            }),
    {
        SubmissionIntent { id, usage_batch, evidence, state: SubmissionState::Prepared }
    }

    /// Moves the intent to `next` when the lifecycle allows that move; the
    /// identity, batch and evidence of the intent never change.
    pub fn transition(self, next: SubmissionState) -> (r: Result<SubmissionIntent, DomainError>)
        ensures
            r is Ok <==> can_step(self.state@, next@),
            r matches Ok(s) ==> s@ == (IntentModel { state: next@, ..self@ }),
            r matches Err(e) ==> e == (DomainError::InvalidStateTransition {
                from: self.state,
                to: next,
            }),
    {
        if !self.state.can_transition_to(&next) {
            return Err(DomainError::InvalidStateTransition { from: self.state, to: next });
        }
        Ok(SubmissionIntent { state: next, ..self })
    }
}

/// A cursor describes what a projection has observed. It does not attest to
/// settlement or payout completion, even when it follows a confirmed action.
#[derive(Debug, Eq, PartialEq)]
pub struct ProjectionCursor {
    pub projection: ProjectionVersion,
    pub last_indexed_submission: Option<SubmissionId>,
}

impl View for ProjectionCursor {
    type V = CursorModel;

    open spec fn view(&self) -> CursorModel {
        CursorModel {
            projection: self.projection@,
            last_indexed_submission: match self.last_indexed_submission {
                Some(id) => Some(id@),
                None => None,
            },
        }
    }
}

impl Clone for ProjectionCursor {
    fn clone(&self) -> (r: Self)
        ensures
            r@ == self@,
    {
        ProjectionCursor {
            projection: self.projection.clone(),
            last_indexed_submission: match &self.last_indexed_submission {
                Some(id) => Some(id.clone()),
                None => None,
            },
        }
    }
}

/// Admits or denies participants.
pub trait IdentityAdapter {
    type Error;

    fn admit_participant(&self, participant: &ParticipantId) -> Result<Admission, Self::Error>;
}

#[derive(Clone, Debug, Eq, PartialEq)]
pub enum Admission {
    Allowed,
    Denied,
}

/// This boundary verifies a provider-side authorisation reference. It neither
/// computes a balance nor records financial state.
pub trait BillingAdapter {
    type Error;

    fn verify_authorisation(&self, authorisation: &BillingAuthorisationReference) -> Result<
        BillingAuthorisation,
        Self::Error,
    >;
}

#[derive(Clone, Debug, Eq, PartialEq)]
pub enum BillingAuthorisation {
    Valid,
    Rejected,
}

pub trait Catalogue {
    type Error;

    fn is_available(&self, item: &CatalogueItemId) -> Result<CatalogueAvailability, Self::Error>;
}

#[derive(Clone, Debug, Eq, PartialEq)]
pub enum CatalogueAvailability {
    Available,
    Unavailable,
}

pub trait PrivateEvidenceStore {
    type Error;

    fn retain(&mut self, reference: EvidenceReference) -> Result<(), Self::Error>;

    fn evidence_exists(&self, reference: &EvidenceReference) -> Result<bool, Self::Error>;
}

/// A Move adapter may inspect an opaque operation reference, but financial
/// completion remains solely observable from Move state and events.
pub trait MoveLedger {
    type Error;

    fn transaction_status(&self, transaction: &MoveTransactionReference) -> Result<
        MoveTransactionStatus,
        Self::Error,
    >;
}

#[derive(Clone, Debug, Eq, PartialEq)]
pub enum MoveTransactionStatus {
    Submitted,
    Confirmed,
    Rejected,
}

/// What a replay lookup found.
#[derive(Clone, Debug, Eq, PartialEq)]
pub enum ReplayRecord {
    Exact(Box<SubmissionIntent>),
    Conflict,
    Absent,
}

/// The durable store of submission intents and of the projection cursor.
/// Its contents are `intent_records`, keyed by the text of each intent's id,
/// and `cursor_record`. Every implementation changes nothing when it fails.
/// A store that is `available` answers every call and stays available; it
/// fails only where a call's own conditions refuse it (creating an id that is
/// stored, replacing one that is not). What makes a store available is its own
/// affair: an in-memory store always is, a store behind I/O may never claim it.
pub trait SubmissionIntentStore {
    type Error;

    spec fn intent_records(&self) -> Map<Seq<char>, IntentModel>;

    spec fn cursor_record(&self) -> Option<CursorModel>;

    spec fn available(&self) -> bool;

    /// Stores a new intent; an intent with the same id must not be stored yet.
    fn create(&mut self, intent: SubmissionIntent) -> (r: Result<(), Self::Error>)
        ensures
            final(self).cursor_record() == old(self).cursor_record(),
            r is Ok ==> !old(self).intent_records().contains_key(intent@.id),
            r is Ok ==> final(self).intent_records() == old(self).intent_records().insert(
                intent@.id,
                intent@,
            ),
            r is Err ==> final(self).intent_records() == old(self).intent_records(),
            old(self).available() ==> final(self).available(),
            old(self).available() && !old(self).intent_records().contains_key(intent@.id)
                ==> r is Ok,
    ;

    /// The intent stored under `id`, if any.
    fn load(&self, id: &SubmissionId) -> (r: Result<Option<SubmissionIntent>, Self::Error>)
        ensures
            r matches Ok(found) ==> (found is Some <==> self.intent_records().contains_key(id@)),
            r matches Ok(Some(intent)) ==> intent@ == self.intent_records()[id@] && intent@.id
                == id@,
            self.available() ==> r is Ok,
    ;

    /// Replaces the intent stored under the id of `intent`, which must exist.
    fn replace(&mut self, intent: SubmissionIntent) -> (r: Result<(), Self::Error>)
        ensures
            final(self).cursor_record() == old(self).cursor_record(),
            r is Ok ==> old(self).intent_records().contains_key(intent@.id),
            r is Ok ==> final(self).intent_records() == old(self).intent_records().insert(
                intent@.id,
                intent@,
            ),
            r is Err ==> final(self).intent_records() == old(self).intent_records(),
            old(self).available() ==> final(self).available(),
            old(self).available() && old(self).intent_records().contains_key(intent@.id)
                ==> r is Ok,
    ;

    /// Looks for a stored intent that `batch` replays or conflicts with.
    fn find_replay(&self, batch: &UsageBatchReference) -> (r: Result<ReplayRecord, Self::Error>)
        ensures
            r matches Ok(ReplayRecord::Exact(found)) ==> exists|k: Seq<char>|
                #![trigger self.intent_records()[k]]
                self.intent_records().contains_key(k) && self.intent_records()[k] == found@
                    && replay_relation_of(found@.usage_batch, batch@) == ReplayRelation::Exact,
            r matches Ok(ReplayRecord::Conflict) ==> exists|k: Seq<char>|
                #![trigger self.intent_records()[k]]
                self.intent_records().contains_key(k) && replay_relation_of(
                    self.intent_records()[k].usage_batch,
                    batch@,
                ) == ReplayRelation::Conflict,
            r matches Ok(ReplayRecord::Absent) ==> forall|k: Seq<char>|
                #![trigger self.intent_records()[k]]
                self.intent_records().contains_key(k) ==> replay_relation_of(
                    self.intent_records()[k].usage_batch,
                    batch@,
                ) == ReplayRelation::Distinct,
            self.available() ==> r is Ok,
    ;

    fn load_cursor(&self) -> (r: Result<Option<ProjectionCursor>, Self::Error>)
        ensures
            r matches Ok(c) ==> (c is Some <==> self.cursor_record() is Some),
            r matches Ok(Some(c)) ==> self.cursor_record() == Some(c@),
            self.available() ==> r is Ok,
    ;

    fn save_cursor(&mut self, cursor: ProjectionCursor) -> (r: Result<(), Self::Error>)
        ensures
            final(self).intent_records() == old(self).intent_records(),
            r is Ok ==> final(self).cursor_record() == Some(cursor@),
            r is Err ==> final(self).cursor_record() == old(self).cursor_record(),
            old(self).available() ==> final(self).available(),
            old(self).available() ==> r is Ok,
    ;
}

} // verus!
