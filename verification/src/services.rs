//! Coordinator persistence semantics. This module stores intent and projection
//! progress only; it does not calculate, allocate, or complete financial work.

use vstd::prelude::*;
use crate::domain::{
    can_step, lemma_exact_retry_interferes_alike, lemma_replay_relation_reflexive,
    lemma_replay_relation_symmetric, law_replay_rule, replay_relation_of, BatchModel, CursorModel, DomainError,
    FromDomainError, IntentModel, ProjectionCursor, ProjectionVersion, ReplayRecord, ReplayRelation, StateModel,
    SubmissionId, SubmissionIntent, SubmissionIntentStore, SubmissionState, UsageBatchReference,
};
use crate::keyed::{keys_increase, lemma_map_of_at, lemma_map_of_insert, lemma_map_of_key,
    lemma_map_of_update, map_of};
use crate::order::{compare_keys, key_lt, lemma_key_lt_asymmetric, lemma_key_lt_irreflexive,
    lemma_key_lt_transitive, KeyOrder};

verus! {

/// The stored intents as entries keyed by the text of their ids.
pub open spec fn entries(s: Seq<SubmissionIntent>) -> Seq<(Seq<char>, IntentModel)> {
    s.map_values(|i: SubmissionIntent| (i@.id, i@))
}

/// A test adapter for the durable-store boundary. Production persistence is an
/// infrastructure choice and must implement `SubmissionIntentStore` with the
/// same create-before-submit and cursor-save semantics. Intents are kept in
/// the order of their ids.
pub struct InMemoryIntentStore {
    intents: Vec<SubmissionIntent>,
    cursor: Option<ProjectionCursor>,
}

impl InMemoryIntentStore {
    #[verifier::type_invariant]
    spec fn ordered_by_id(self) -> bool {
        keys_increase(entries(self.intents@))
    }

    /// Where an intent with `id` is or would be stored: the first index whose id
    /// does not come before `id`, and whether it is `id` itself.
    fn position(&self, id: &SubmissionId) -> (r: (usize, bool))
        ensures
            r.0 <= self.intents@.len(),
            r.1 ==> r.0 < self.intents@.len() && self.intents@[r.0 as int]@.id == id@,
            !r.1 ==> forall|i: int|
                0 <= i < self.intents@.len() ==> (i < r.0 <==> key_lt(
                    #[trigger] self.intents@[i]@.id,
                    id@,
                )),
            forall|i: int| 0 <= i < r.0 ==> key_lt(#[trigger] self.intents@[i]@.id, id@),
            !r.1 ==> forall|i: int|
                r.0 <= i < self.intents@.len() ==> key_lt(id@, #[trigger] self.intents@[i]@.id),
    {
        proof {
            use_type_invariant(self);
        }
        let ghost s = entries(self.intents@);
        let mut p: usize = 0;
        while p < self.intents.len()
            invariant
                p <= self.intents@.len(),
                s == entries(self.intents@),
                keys_increase(s),
                forall|i: int| 0 <= i < p ==> key_lt(#[trigger] self.intents@[i]@.id, id@),
            decreases self.intents.len() - p,
        {
            let o = compare_keys(self.intents[p].id.0.as_str(), id.0.as_str());
            match o {
                KeyOrder::Less => {
                    p = p + 1;
                },
                KeyOrder::Equal => {
                    return (p, true);
                },
                KeyOrder::Greater => {
                    proof {
                        assert forall|i: int| p <= i < self.intents@.len() implies key_lt(
                            id@,
                            #[trigger] self.intents@[i]@.id,
                        ) by {
                            if i > p {
                                assert(s[p as int].0 == self.intents@[p as int]@.id);
                                assert(s[i].0 == self.intents@[i]@.id);
                                lemma_key_lt_transitive(id@, s[p as int].0, s[i].0);
                            }
                        }
                        assert forall|i: int| 0 <= i < self.intents@.len() implies (i < p
                            <==> key_lt(#[trigger] self.intents@[i]@.id, id@)) by {
                            if i >= p {
                                lemma_key_lt_asymmetric(id@, self.intents@[i]@.id);
                            }
                        }
                    }
                    return (p, false);
                },
            }
        }
        (p, false)
    }
}

impl Default for InMemoryIntentStore {
    fn default() -> (r: Self)
        ensures
            r.intent_records() == Map::<Seq<char>, IntentModel>::empty(),
            r.cursor_record() is None,
    {
        let r = InMemoryIntentStore { intents: Vec::new(), cursor: None };
        assert(map_of(entries(r.intents@)) =~= Map::<Seq<char>, IntentModel>::empty());
        r
    }
}

/// The first stored intent, in key order, that `batch` is not distinct from
/// decides a replay lookup.
pub open spec fn first_interfering(
    records: Map<Seq<char>, IntentModel>,
    batch: BatchModel,
    k: Seq<char>,
) -> bool {
    &&& records.contains_key(k)
    &&& replay_relation_of(records[k].usage_batch, batch) != ReplayRelation::Distinct
    &&& forall|k2: Seq<char>|
        #![trigger records[k2]]
        records.contains_key(k2) && key_lt(k2, k) ==> replay_relation_of(
            records[k2].usage_batch,
            batch,
        ) == ReplayRelation::Distinct
}

impl SubmissionIntentStore for InMemoryIntentStore {
    type Error = DomainError;

    closed spec fn intent_records(&self) -> Map<Seq<char>, IntentModel> {
        map_of(entries(self.intents@))
    }

    open spec fn available(&self) -> bool {
        true
    }

    closed spec fn cursor_record(&self) -> Option<CursorModel> {
        match self.cursor {
            Some(c) => Some(c@),
            None => None,
        }
    }

    fn create(&mut self, intent: SubmissionIntent) -> (r: Result<(), DomainError>)
        ensures
            r is Err <==> old(self).intent_records().contains_key(intent@.id),
            r matches Err(e) ==> e == DomainError::ConflictingIntent,
    {
        proof {
            use_type_invariant(&*self);
        }
        let (p, found) = self.position(&intent.id);
        let ghost s = entries(self.intents@);
        if found {
            proof {
                lemma_map_of_at(s, p as int);
            }
            return Err(DomainError::ConflictingIntent);
        }
        proof {
            if map_of(s).contains_key(intent@.id) {
                let i = lemma_map_of_key(s, intent@.id);
                lemma_key_lt_irreflexive(intent@.id);
            }
            lemma_map_of_insert(s, p as int, (intent@.id, intent@));
            assert(entries(self.intents@.insert(p as int, intent)) =~= s.insert(p as int, (intent@.id, intent@)));
        }
        let mut intents: Vec<SubmissionIntent> = Vec::new();
        std::mem::swap(&mut intents, &mut self.intents);
        intents.insert(p, intent);
        self.intents = intents;
        Ok(())
    }

    fn load(&self, id: &SubmissionId) -> (r: Result<Option<SubmissionIntent>, DomainError>)
        ensures
            r is Ok,
    {
        proof {
            use_type_invariant(self);
        }
        let ghost s = entries(self.intents@);
        let (p, found) = self.position(id);
        if found {
            proof {
                lemma_map_of_at(s, p as int);
            }
            Ok(Some(self.intents[p].clone()))
        } else {
            proof {
                if map_of(s).contains_key(id@) {
                    let i = lemma_map_of_key(s, id@);
                    lemma_key_lt_irreflexive(id@);
                }
            }
            Ok(None)
        }
    }

    fn replace(&mut self, intent: SubmissionIntent) -> (r: Result<(), DomainError>)
        ensures
            r is Err <==> !old(self).intent_records().contains_key(intent@.id),
            r matches Err(e) ==> e == DomainError::MissingIntent,
    {
        proof {
            use_type_invariant(&*self);
        }
        let ghost s = entries(self.intents@);
        let (p, found) = self.position(&intent.id);
        if !found {
            proof {
                if map_of(s).contains_key(intent@.id) {
                    let i = lemma_map_of_key(s, intent@.id);
                    lemma_key_lt_irreflexive(intent@.id);
                }
            }
            return Err(DomainError::MissingIntent);
        }
        proof {
            lemma_map_of_at(s, p as int);
            lemma_map_of_update(s, p as int, (intent@.id, intent@));
            assert(entries(self.intents@.update(p as int, intent)) =~= s.update(p as int, (intent@.id, intent@)));
        }
        let mut intents: Vec<SubmissionIntent> = Vec::new();
        std::mem::swap(&mut intents, &mut self.intents);
        intents.set(p, intent);
        self.intents = intents;
        Ok(())
    }

    fn find_replay(&self, batch: &UsageBatchReference) -> (r: Result<ReplayRecord, DomainError>)
        ensures
            r is Ok,
            forall|k: Seq<char>| #[trigger]
                self.intent_records().contains_key(k) ==> self.intent_records()[k].id == k,
            r matches Ok(ReplayRecord::Exact(found)) ==> self.intent_records().contains_key(
                found@.id,
            ) && self.intent_records()[found@.id] == found@,
            r matches Ok(ReplayRecord::Exact(found)) ==> first_interfering(
                self.intent_records(),
                batch@,
                found@.id,
            ),
            r matches Ok(ReplayRecord::Conflict) ==> exists|k: Seq<char>|
                first_interfering(self.intent_records(), batch@, k) && replay_relation_of(
                    #[trigger] self.intent_records()[k].usage_batch,
                    batch@,
                ) == ReplayRelation::Conflict,
    {
        proof {
            use_type_invariant(self);
        }
        let ghost s = entries(self.intents@);
        proof {
            assert forall|k: Seq<char>| #[trigger] map_of(s).contains_key(k) implies map_of(s)[k].id
                == k by {
                let j = lemma_map_of_key(s, k);
            }
        }
        let mut i: usize = 0;
        while i < self.intents.len()
            invariant
                i <= self.intents@.len(),
                s == entries(self.intents@),
                keys_increase(s),
                forall|j: int|
                    0 <= j < i ==> replay_relation_of(#[trigger] s[j].1.usage_batch, batch@)
                        == ReplayRelation::Distinct,
            decreases self.intents.len() - i,
        {
            let relation = self.intents[i].usage_batch.replay_relation(batch);
            match relation {
                ReplayRelation::Distinct => {
                    i = i + 1;
                },
                _ => {
                    proof {
                        lemma_map_of_at(s, i as int);
                        let records = map_of(s);
                        assert forall|k2: Seq<char>|
                            #![trigger records[k2]]
                            records.contains_key(k2) && key_lt(k2, s[i as int].0) implies replay_relation_of(
                            records[k2].usage_batch,
                            batch@,
                        ) == ReplayRelation::Distinct by {
                            let j = lemma_map_of_key(s, k2);
                            lemma_key_lt_irreflexive(k2);
                            if j > i {
                                lemma_key_lt_asymmetric(s[i as int].0, s[j].0);
                            }
                        }
                        assert(first_interfering(records, batch@, s[i as int].0));
                    }
                    if let ReplayRelation::Exact = relation {
                        return Ok(ReplayRecord::Exact(Box::new(self.intents[i].clone())));
                    }
                    return Ok(ReplayRecord::Conflict);
                },
            }
        }
        proof {
            assert forall|k: Seq<char>|
                #![trigger map_of(s)[k]]
                map_of(s).contains_key(k) implies replay_relation_of(
                map_of(s)[k].usage_batch,
                batch@,
            ) == ReplayRelation::Distinct by {
                let j = lemma_map_of_key(s, k);
            }
        }
        Ok(ReplayRecord::Absent)
    }

    fn load_cursor(&self) -> (r: Result<Option<ProjectionCursor>, DomainError>)
        ensures
            r is Ok,
    {
        match &self.cursor {
            Some(c) => Ok(Some(c.clone())),
            None => Ok(None),
        }
    }

    fn save_cursor(&mut self, cursor: ProjectionCursor) -> (r: Result<(), DomainError>)
        ensures
            r is Ok,
    {
        proof {
            use_type_invariant(&*self);
        }
        self.cursor = Some(cursor);
        Ok(())
    }
}

/// The outcome of recording `intent` into a store that held `before`, when
/// the result is `v` and the store then holds `after`: either the intent is new
/// and distinct from every stored batch and is created, or a stored intent is an
/// exact retry of its batch and is returned with nothing stored.
pub open spec fn recorded(
    before: Map<Seq<char>, IntentModel>,
    intent: IntentModel,
    v: IntentModel,
    after: Map<Seq<char>, IntentModel>,
) -> bool {
    ||| {
        &&& v == intent
        &&& !before.contains_key(intent.id)
        &&& forall|k: Seq<char>|
            #![trigger before[k]]
            before.contains_key(k) ==> replay_relation_of(before[k].usage_batch, intent.usage_batch)
                == ReplayRelation::Distinct
        &&& after == before.insert(intent.id, intent)
    }
    ||| {
        &&& after == before
        &&& exists|k: Seq<char>| #[trigger] before.contains_key(k) && before[k] == v
        &&& replay_relation_of(v.usage_batch, intent.usage_batch) == ReplayRelation::Exact
    }
}

/// Recording `intent` succeeds at a store that answers every call when no
/// stored batch conflicts with its batch, and either a stored intent is an exact
/// retry of it or its id is not stored yet.
pub open spec fn record_succeeds(records: Map<Seq<char>, IntentModel>, intent: IntentModel) -> bool {
    &&& forall|k: Seq<char>|
        #![trigger records[k]]
        records.contains_key(k) ==> replay_relation_of(records[k].usage_batch, intent.usage_batch)
            != ReplayRelation::Conflict
    &&& (exists|k: Seq<char>|
        #![trigger records[k]]
        records.contains_key(k) && replay_relation_of(records[k].usage_batch, intent.usage_batch)
            == ReplayRelation::Exact) || !records.contains_key(intent.id)
}

/// No stored intent is an exact retry of `intent`, and a stored batch
/// conflicts with its batch: recording is refused as a replay conflict.
pub open spec fn replay_refused(records: Map<Seq<char>, IntentModel>, intent: IntentModel) -> bool {
    &&& forall|k: Seq<char>|
        #![trigger records[k]]
        records.contains_key(k) ==> replay_relation_of(records[k].usage_batch, intent.usage_batch)
            != ReplayRelation::Exact
    &&& exists|k: Seq<char>|
        #![trigger records[k]]
        records.contains_key(k) && replay_relation_of(records[k].usage_batch, intent.usage_batch)
            == ReplayRelation::Conflict
}

/// Every stored batch is distinct from the batch of `intent`, yet its id is
/// already stored: recording is refused as a conflicting intent.
pub open spec fn id_taken(records: Map<Seq<char>, IntentModel>, intent: IntentModel) -> bool {
    &&& forall|k: Seq<char>|
        #![trigger records[k]]
        records.contains_key(k) ==> replay_relation_of(records[k].usage_batch, intent.usage_batch)
            == ReplayRelation::Distinct
    &&& records.contains_key(intent.id)
}

/// Recording `intent` is refused: as a replay conflict or as a conflicting
/// intent.
pub open spec fn record_conflicts(records: Map<Seq<char>, IntentModel>, intent: IntentModel) -> bool {
    replay_refused(records, intent) || id_taken(records, intent)
}

/// What the answer of a replay lookup decides when recording a submission: an
/// error of the store is handed on unchanged, an exact retry gives back the
/// stored intent, a conflict is refused with `ReplayConflict`, and when nothing
/// interferes (`None`) the id has to be looked up.
pub fn replay_outcome<E: FromDomainError>(replay: Result<ReplayRecord, E>) -> (r: Option<
    Result<SubmissionIntent, E>,
>)
    ensures
        replay matches Err(e) ==> r == Some(Err::<SubmissionIntent, E>(e)),
        replay matches Ok(ReplayRecord::Exact(x)) ==> r == Some(Ok::<SubmissionIntent, E>(*x)),
        replay matches Ok(ReplayRecord::Conflict) ==> r == Some(
            Err::<SubmissionIntent, E>(E::from_domain_error_spec(DomainError::ReplayConflict)),
        ),
        replay matches Ok(ReplayRecord::Absent) ==> r is None,
{
    match replay {
        Err(e) => Some(Err(e)),
        Ok(ReplayRecord::Exact(existing)) => Some(Ok(*existing)),
        Ok(ReplayRecord::Conflict) => Some(Err(E::from_domain_error(DomainError::ReplayConflict))),
        Ok(ReplayRecord::Absent) => None,
    }
}

/// What looking up the id of `intent` decides when no stored batch interferes
/// with it: an error of the store is handed on unchanged, the same intent
/// stored under the id is given back, another intent stored under it is
/// refused with `ConflictingIntent`, and when the id is free (`None`) the
/// intent is to be created.
pub fn lookup_outcome<E: FromDomainError>(
    intent: &SubmissionIntent,
    loaded: Result<Option<SubmissionIntent>, E>,
) -> (r: Option<Result<SubmissionIntent, E>>)
    ensures
        loaded matches Err(e) ==> r == Some(Err::<SubmissionIntent, E>(e)),
        loaded matches Ok(Some(x)) ==> (x@ == intent@ ==> r == Some(Ok::<SubmissionIntent, E>(x))),
        loaded matches Ok(Some(x)) ==> (x@ != intent@ ==> r == Some(
            Err::<SubmissionIntent, E>(E::from_domain_error_spec(DomainError::ConflictingIntent)),
        )),
        loaded matches Ok(None) ==> r is None,
{
    match loaded {
        Err(e) => Some(Err(e)),
        Ok(Some(existing)) => {
            if existing == *intent {
                Some(Ok(existing))
            } else {
                Some(Err(E::from_domain_error(DomainError::ConflictingIntent)))
            }
        },
        Ok(None) => None,
    }
}

/// What a store's answer to a write of `intent` decides: an error of the
/// store is handed on unchanged, success gives back the intent written.
pub fn write_outcome<E>(intent: SubmissionIntent, written: Result<(), E>) -> (r: Result<
    SubmissionIntent,
    E,
>)
    ensures
        written matches Err(e) ==> r == Err::<SubmissionIntent, E>(e),
        written is Ok ==> r == Ok::<SubmissionIntent, E>(intent),
{
    match written {
        Err(e) => Err(e),
        Ok(()) => Ok(intent),
    }
}

/// What looking up the intent to advance decides: an error of the store is
/// handed on unchanged, an id that is not stored is refused with
/// `MissingIntent`, and a stored intent is given back.
pub fn stored_intent<E: FromDomainError>(loaded: Result<Option<SubmissionIntent>, E>) -> (r:
    Result<SubmissionIntent, E>)
    ensures
        loaded matches Err(e) ==> r == Err::<SubmissionIntent, E>(e),
        loaded matches Ok(Some(x)) ==> r == Ok::<SubmissionIntent, E>(x),
        loaded matches Ok(None) ==> r == Err::<SubmissionIntent, E>(
            E::from_domain_error_spec(DomainError::MissingIntent),
        ),
{
    match loaded {
        Err(e) => Err(e),
        Ok(Some(existing)) => Ok(existing),
        Ok(None) => Err(E::from_domain_error(DomainError::MissingIntent)),
    }
}

/// The outcome of advancing the intent stored under `id` to `next`, when the
/// result is `u` and the store then holds `after`.
pub open spec fn advanced(
    before: Map<Seq<char>, IntentModel>,
    id: Seq<char>,
    next: StateModel,
    u: IntentModel,
    after: Map<Seq<char>, IntentModel>,
) -> bool {
    &&& before.contains_key(id)
    &&& can_step(before[id].state, next)
    &&& u == IntentModel { state: next, ..before[id] }
    &&& after == before.insert(u.id, u)
}

/// Persists the exact intent before any Move adapter may submit it. Repeating
/// the same request returns its original record; conflicting reuse is rejected.
pub fn record_submission<S>(store: &mut S, intent: SubmissionIntent) -> (r: Result<
    SubmissionIntent,
    S::Error,
>) where S: SubmissionIntentStore, S::Error: FromDomainError
    ensures
        final(store).cursor_record() == old(store).cursor_record(),
        r matches Ok(v) ==> recorded(
            old(store).intent_records(),
            intent@,
            v@,
            final(store).intent_records(),
        ),
        r is Err ==> final(store).intent_records() == old(store).intent_records(),
        old(store).available() ==> final(store).available(),
        old(store).available() && record_succeeds(old(store).intent_records(), intent@) ==> r is Ok,
        record_conflicts(old(store).intent_records(), intent@) ==> r is Err,
        old(store).available() && replay_refused(old(store).intent_records(), intent@) ==> r
            == Err::<SubmissionIntent, S::Error>(
            S::Error::from_domain_error_spec(DomainError::ReplayConflict),
        ),
        old(store).available() && id_taken(old(store).intent_records(), intent@) ==> r == Err::<
            SubmissionIntent,
            S::Error,
        >(S::Error::from_domain_error_spec(DomainError::ConflictingIntent)),
{
    let replay = store.find_replay(&intent.usage_batch);
    proof {
        lemma_replay_relation_reflexive(intent@.usage_batch);
    }
    match replay_outcome(replay) {
        Some(decided) => decided,
        None => match lookup_outcome(&intent, store.load(&intent.id)) {
            Some(decided) => decided,
            None => {
                let created = store.create(intent.clone());
                write_outcome(intent, created)
            },
        },
    }
}

/// Advances an already persisted intent. A caller must retain the updated
/// record before exposing the state change to the next service step.
pub fn advance_submission<S>(store: &mut S, id: &SubmissionId, next: SubmissionState) -> (r:
    Result<SubmissionIntent, S::Error>) where S: SubmissionIntentStore, S::Error: FromDomainError
    ensures
        final(store).cursor_record() == old(store).cursor_record(),
        r matches Ok(u) ==> advanced(
            old(store).intent_records(),
            id@,
            next@,
            u@,
            final(store).intent_records(),
        ),
        r is Err ==> final(store).intent_records() == old(store).intent_records(),
        !old(store).intent_records().contains_key(id@) ==> r is Err,
        old(store).intent_records().contains_key(id@) && !can_step(
            old(store).intent_records()[id@].state,
            next@,
        ) ==> r is Err,
        old(store).available() ==> final(store).available(),
        old(store).available() && old(store).intent_records().contains_key(id@) && can_step(
            old(store).intent_records()[id@].state,
            next@,
        ) ==> r is Ok,
        old(store).available() && !old(store).intent_records().contains_key(id@) ==> r == Err::<
            SubmissionIntent,
            S::Error,
        >(S::Error::from_domain_error_spec(DomainError::MissingIntent)),
        old(store).available() && old(store).intent_records().contains_key(
            id@,
        ) && !can_step(old(store).intent_records()[id@].state, next@) ==> exists|
            from: SubmissionState,
        |
            #![trigger from@]
            from@ == old(store).intent_records()[id@].state && r == Err::<
                SubmissionIntent,
                S::Error,
            >(S::Error::from_domain_error_spec(DomainError::InvalidStateTransition { from, to: next })),
{
    let existing = match stored_intent(store.load(id)) {
        Err(e) => return Err(e),
        Ok(existing) => existing,
    };
    let updated = match existing.transition(next) {
        Err(e) => return Err(S::Error::from_domain_error(e)),
        Ok(updated) => updated,
    };
    let replaced = store.replace(updated.clone());
    write_outcome(updated, replaced)
}

/// Projection movement is explicit and separate from Move confirmation. The
/// cursor contains no conclusion about allocation or payout completion.
pub fn advance_projection_cursor<S>(
    store: &mut S,
    projection: ProjectionVersion,
    last_indexed_submission: Option<SubmissionId>,
) -> (r: Result<ProjectionCursor, S::Error>) where S: SubmissionIntentStore
    ensures
        final(store).intent_records() == old(store).intent_records(),
        r matches Ok(c) ==> c@ == (CursorModel {
            projection: projection@,
            last_indexed_submission: match last_indexed_submission {
                Some(id) => Some(id@),
                None => None,
            },
        }),
        r matches Ok(c) ==> final(store).cursor_record() == Some(c@),
        r is Err ==> final(store).cursor_record() == old(store).cursor_record(),
        old(store).available() ==> final(store).available(),
        old(store).available() ==> r is Ok,
{
    let cursor = ProjectionCursor { projection, last_indexed_submission };
    match store.save_cursor(cursor.clone()) {
        Err(e) => Err(e),
        Ok(()) => Ok(cursor),
    }
}

/// A store's records are well formed when each intent is stored under its own
/// id and no two stored intents interfere under the replay rule.
pub open spec fn well_formed_records(records: Map<Seq<char>, IntentModel>) -> bool {
    &&& forall|k: Seq<char>| #[trigger] records.contains_key(k) ==> records[k].id == k
    &&& forall|k1: Seq<char>, k2: Seq<char>|
        #![trigger records[k1], records[k2]]
        records.contains_key(k1) && records.contains_key(k2) && k1 != k2 ==> replay_relation_of(
            records[k1].usage_batch,
            records[k2].usage_batch,
        ) == ReplayRelation::Distinct
}

/// Recording a submission keeps a store well formed: the records never come
/// to hold two interfering batches.
pub proof fn law_record_keeps_records_well_formed(
    before: Map<Seq<char>, IntentModel>,
    intent: IntentModel,
    v: IntentModel,
    after: Map<Seq<char>, IntentModel>,
)
    requires
        well_formed_records(before),
        recorded(before, intent, v, after),
    ensures
        well_formed_records(after),
{
    if after != before {
        assert forall|k1: Seq<char>, k2: Seq<char>|
            #![trigger after[k1], after[k2]]
            after.contains_key(k1) && after.contains_key(k2) && k1 != k2 implies replay_relation_of(
            after[k1].usage_batch,
            after[k2].usage_batch,
        ) == ReplayRelation::Distinct by {
            if k1 == intent.id {
                assert(before[k2] == after[k2]);
                lemma_replay_relation_symmetric(before[k2].usage_batch, intent.usage_batch);
            } else if k2 == intent.id {
                assert(before[k1] == after[k1]);
            } else {
                assert(before[k1] == after[k1] && before[k2] == after[k2]);
            }
        }
    }
}

/// In a well formed store, the intents that are exact retries of the same
/// batch are one and the same stored intent.
proof fn lemma_exact_retries_are_one_record(
    records: Map<Seq<char>, IntentModel>,
    k1: Seq<char>,
    k2: Seq<char>,
    batch: BatchModel,
)
    requires
        well_formed_records(records),
        records.contains_key(k1),
        records.contains_key(k2),
        replay_relation_of(records[k1].usage_batch, batch) == ReplayRelation::Exact,
        replay_relation_of(records[k2].usage_batch, batch) != ReplayRelation::Distinct,
    ensures
        k1 == k2,
{
    if k1 != k2 {
        lemma_exact_retry_interferes_alike(
            records[k1].usage_batch,
            records[k2].usage_batch,
            batch,
        );
        lemma_replay_relation_symmetric(records[k1].usage_batch, records[k2].usage_batch);
    }
}

/// Retrying a recorded submission returns the record of the first attempt and
/// stores nothing new.
pub proof fn law_retry_returns_original_record(
    before: Map<Seq<char>, IntentModel>,
    intent: IntentModel,
    first: IntentModel,
    middle: Map<Seq<char>, IntentModel>,
    second: IntentModel,
    after: Map<Seq<char>, IntentModel>,
)
    requires
        well_formed_records(before),
        recorded(before, intent, first, middle),
        recorded(middle, intent, second, after),
    ensures
        second == first,
        after == middle,
{
    law_record_keeps_records_well_formed(before, intent, first, middle);
    lemma_replay_relation_reflexive(intent.usage_batch);
    // The first attempt leaves an exact retry of the batch stored under key `k1`.
    let k1 = if middle != before {
        intent.id
    } else {
        choose|k: Seq<char>| #[trigger] before.contains_key(k) && before[k] == first
    };
    assert(middle.contains_key(k1) && middle[k1] == first);
    assert(replay_relation_of(first.usage_batch, intent.usage_batch) == ReplayRelation::Exact);
    if after != middle {
        // A second creation would need every stored batch to be distinct.
        assert(replay_relation_of(middle[k1].usage_batch, intent.usage_batch)
            == ReplayRelation::Distinct);
    } else {
        let k2 = choose|k: Seq<char>| #[trigger] middle.contains_key(k) && middle[k] == second;
        lemma_exact_retries_are_one_record(middle, k1, k2, intent.usage_batch);
    }
}

/// A submission whose batch conflicts with a stored batch is never recorded.
pub proof fn law_conflicting_submission_is_rejected(
    before: Map<Seq<char>, IntentModel>,
    intent: IntentModel,
    v: IntentModel,
    after: Map<Seq<char>, IntentModel>,
    k: Seq<char>,
)
    requires
        well_formed_records(before),
        before.contains_key(k),
        replay_relation_of(before[k].usage_batch, intent.usage_batch) == ReplayRelation::Conflict,
    ensures
        !recorded(before, intent, v, after),
{
    if recorded(before, intent, v, after) {
        if after != before {
            assert(replay_relation_of(before[k].usage_batch, intent.usage_batch)
                == ReplayRelation::Distinct);
        } else {
            let k1 = choose|k1: Seq<char>| #[trigger] before.contains_key(k1) && before[k1] == v;
            lemma_exact_retries_are_one_record(before, k1, k, intent.usage_batch);
        }
    }
}

/// A submission whose usage overlaps stored usage is refused as a replay
/// conflict and stores nothing: when a stored batch has the same period and
/// lane, its range shares a position with the new range, and it is not the
/// same range with the same payload digest, recording is refused
/// (`replay_refused`, which `record_submission` answers with `ReplayConflict`)
/// and no outcome of recording exists.
pub proof fn law_overlapping_usage_is_refused(
    before: Map<Seq<char>, IntentModel>,
    intent: IntentModel,
    v: IntentModel,
    after: Map<Seq<char>, IntentModel>,
    k: Seq<char>,
)
    requires
        well_formed_records(before),
        before.contains_key(k),
        before[k].usage_batch.period == intent.usage_batch.period,
        before[k].usage_batch.range.lane == intent.usage_batch.range.lane,
        !(before[k].usage_batch.range.first == intent.usage_batch.range.first
            && before[k].usage_batch.range.last == intent.usage_batch.range.last
            && before[k].usage_batch.payload_digest == intent.usage_batch.payload_digest),
        before[k].usage_batch.range.first <= intent.usage_batch.range.last,
        intent.usage_batch.range.first <= before[k].usage_batch.range.last,
    ensures
        replay_refused(before, intent),
        record_conflicts(before, intent),
        !recorded(before, intent, v, after),
{
    law_replay_rule(before[k].usage_batch, intent.usage_batch);
    law_conflicting_submission_is_rejected(before, intent, v, after, k);
    assert forall|k2: Seq<char>| #![trigger before[k2]] before.contains_key(k2) implies replay_relation_of(
        before[k2].usage_batch,
        intent.usage_batch,
    ) != ReplayRelation::Exact by {
        if replay_relation_of(before[k2].usage_batch, intent.usage_batch) == ReplayRelation::Exact {
            lemma_exact_retry_interferes_alike(
                before[k2].usage_batch,
                before[k].usage_batch,
                intent.usage_batch,
            );
            assert(before[k] == before[k]);
            assert(before[k2] == before[k2]);
        }
    }
}

/// Advancing a submission keeps a store well formed: the batch of an intent
/// never changes.
pub proof fn law_advance_keeps_records_well_formed(
    before: Map<Seq<char>, IntentModel>,
    id: Seq<char>,
    next: StateModel,
    u: IntentModel,
    after: Map<Seq<char>, IntentModel>,
)
    requires
        well_formed_records(before),
        advanced(before, id, next, u, after),
    ensures
        well_formed_records(after),
{
    assert(u.id == id);
    assert forall|k1: Seq<char>, k2: Seq<char>|
        #![trigger after[k1], after[k2]]
        after.contains_key(k1) && after.contains_key(k2) && k1 != k2 implies replay_relation_of(
        after[k1].usage_batch,
        after[k2].usage_batch,
    ) == ReplayRelation::Distinct by {
        assert(after[k1].usage_batch == before[k1].usage_batch);
        assert(after[k2].usage_batch == before[k2].usage_batch);
    }
}

} // verus!
