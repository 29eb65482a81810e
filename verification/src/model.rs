//! The catalog as a mathematical state and the steps that change it.
//!
//! The operations of [`crate::catalog::Catalog`] are stated against this model,
//! and what holds of every sequence of operations is proved of it here.

use crate::error::{
    counter_stuck, delete_not_found, empty_fields, not_found, update_not_found, Error, ErrorView,
};
use crate::record::{Fragrance, FragranceView, PayloadView};
use vstd::prelude::*;

verus! {

/// The mathematical value of a catalog.
pub ghost struct CatalogView {
    /// The identifier that the next record gets.
    pub next_id: u64,
    /// The records by identifier.
    pub records: Map<u64, FragranceView>,
}

/// What an operation returns: a record or an error.
pub type Outcome = Result<FragranceView, ErrorView>;

/// The mathematical value of what an operation returned.
pub open spec fn outcome(returned: Result<Fragrance, Error>) -> Outcome {
    match returned {
        Ok(record) => Ok(record@),
        Err(error) => Err(error@),
    }
}

/// A change of the catalog.
pub ghost enum Step {
    /// Creating a record from `payload` at the time `now`. `advanced` says whether
    /// the durable counter takes its new value.
    Create { payload: PayloadView, now: u64, advanced: bool },
    /// Updating the record `id` with `payload` at the time `now`.
    Update { id: u64, payload: PayloadView, now: u64 },
    /// Removing the record `id`.
    Delete { id: u64 },
}

impl CatalogView {
    /// Every record is valid, stands under its own identifier, and has an
    /// identifier that was given out.
    pub open spec fn valid(self) -> bool {
        forall|id: u64| #[trigger]
            self.records.contains_key(id) ==> id < self.next_id && self.records[id].id == id
                && self.records[id].valid()
    }

    /// The catalog with `record` put under its identifier.
    pub open spec fn put(self, record: FragranceView) -> CatalogView {
        CatalogView { next_id: self.next_id, records: self.records.insert(record.id, record) }
    }

    /// What reading the record `id` returns.
    pub open spec fn read(self, id: u64) -> Outcome {
        if self.records.contains_key(id) {
            Ok(self.records[id])
        } else {
            Err(not_found(id))
        }
    }

    /// The catalog after creating a record, and what the creation returns. A
    /// payload without a name or a description is refused; a counter that stands
    /// at the largest number, or does not take its new value, is stuck; either way
    /// the catalog stays as it is. Else the record gets the next identifier.
    pub open spec fn create(self, payload: PayloadView, now: u64, advanced: bool) -> (
        CatalogView,
        Outcome,
    ) {
        if !payload.valid() {
            (self, Err(empty_fields()))
        } else if !advanced || self.next_id == u64::MAX {
            (self, Err(counter_stuck()))
        } else {
            let record = payload.created(self.next_id, now);
            (
                CatalogView {
                    next_id: (self.next_id + 1) as u64,
                    records: self.records.insert(self.next_id, record),
                },
                Ok(record),
            )
        }
    }

    /// The catalog after updating the record `id`, and what the update returns. A
    /// payload without a name or a description is refused, and so is an identifier
    /// without a record; either way the catalog stays as it is.
    pub open spec fn update(self, id: u64, payload: PayloadView, now: u64) -> (
        CatalogView,
        Outcome,
    ) {
        if !payload.valid() {
            (self, Err(empty_fields()))
        } else if !self.records.contains_key(id) {
            (self, Err(update_not_found(id)))
        } else {
            let record = self.records[id].updated(payload, now);
            (
                CatalogView { next_id: self.next_id, records: self.records.insert(id, record) },
                Ok(record),
            )
        }
    }

    /// The catalog after removing the record `id`, and what the removal returns.
    pub open spec fn delete(self, id: u64) -> (CatalogView, Outcome) {
        if !self.records.contains_key(id) {
            (self, Err(delete_not_found(id)))
        } else {
            (
                CatalogView { next_id: self.next_id, records: self.records.remove(id) },
                Ok(self.records[id]),
            )
        }
    }

    /// The catalog after `step`, and what the step returns.
    pub open spec fn step(self, step: Step) -> (CatalogView, Outcome) {
        match step {
            Step::Create { payload, now, advanced } => self.create(payload, now, advanced),
            Step::Update { id, payload, now } => self.update(id, payload, now),
            Step::Delete { id } => self.delete(id),
        }
    }

    /// The catalog after `steps`, the first of them first.
    pub open spec fn run(self, steps: Seq<Step>) -> CatalogView
        decreases steps.len(),
    {
        if steps.len() == 0 {
            self
        } else {
            self.run(steps.drop_last()).step(steps.last()).0
        }
    }
}

/// A step keeps the catalog valid.
pub proof fn lemma_step_keeps_valid(state: CatalogView, step: Step)
    requires
        state.valid(),
    ensures
        state.step(step).0.valid(),
{
}

/// A step never moves the counter back: an identifier once given out is never
/// given out again.
pub proof fn lemma_counter_never_falls(state: CatalogView, steps: Seq<Step>, k: int)
    requires
        0 <= k <= steps.len(),
    ensures
        state.run(steps.take(k)).next_id <= state.run(steps).next_id,
    decreases steps.len(),
{
    if k < steps.len() {
        let shorter = steps.drop_last();
        assert(shorter.take(k) =~= steps.take(k));
        lemma_counter_never_falls(state, shorter, k);
    } else {
        assert(steps.take(k) =~= steps);
    }
}

/// In every sequence of steps, whatever stands between them, of two creations
/// that return a record the later one returns the larger identifier.
pub proof fn lemma_created_identifiers_ascend(
    state: CatalogView,
    steps: Seq<Step>,
    i: int,
    j: int,
)
    requires
        0 <= i < j < steps.len(),
        steps[i] is Create,
        steps[j] is Create,
        state.run(steps.take(i)).step(steps[i]).1 is Ok,
        state.run(steps.take(j)).step(steps[j]).1 is Ok,
    ensures
        state.run(steps.take(i)).step(steps[i]).1->Ok_0.id < state.run(steps.take(j)).step(
            steps[j],
        ).1->Ok_0.id,
{
    let until_j = steps.take(j);
    assert(until_j.take(i + 1) =~= steps.take(i + 1));
    assert(steps.take(i + 1).drop_last() =~= steps.take(i));
    lemma_counter_never_falls(state, until_j, i + 1);
}

/// A created record has an identifier under which the valid catalog held none.
pub proof fn lemma_created_identifier_is_fresh(
    state: CatalogView,
    payload: PayloadView,
    now: u64,
    advanced: bool,
)
    requires
        state.valid(),
        state.create(payload, now, advanced).1 is Ok,
    ensures
        !state.records.contains_key(state.create(payload, now, advanced).1->Ok_0.id),
{
}

/// Creating from a payload without a name or without a description is refused
/// and leaves the catalog as it was, its number of records with it.
pub proof fn lemma_refused_creation_changes_nothing(
    state: CatalogView,
    payload: PayloadView,
    now: u64,
    advanced: bool,
)
    requires
        payload.name.len() == 0 || payload.description.len() == 0,
    ensures
        state.create(payload, now, advanced).1 == Err::<FragranceView, ErrorView>(empty_fields()),
        state.create(payload, now, advanced).0 == state,
        state.create(payload, now, advanced).0.records.dom() == state.records.dom(),
{
}

/// Updating an identifier without a record finds nothing and changes nothing.
pub proof fn lemma_update_of_absent_record(
    state: CatalogView,
    id: u64,
    payload: PayloadView,
    now: u64,
)
    requires
        payload.valid(),
        !state.records.contains_key(id),
    ensures
        state.update(id, payload, now).1 == Err::<FragranceView, ErrorView>(update_not_found(id)),
        state.update(id, payload, now).0 == state,
{
}

/// Updating a record keeps its identifier and its creation time, replaces its
/// name, its description and its mood properties by those of the payload, and
/// sets its update time to the time of the update, which is not less than the
/// creation time where the update does not come before the creation.
pub proof fn lemma_update_of_present_record(
    state: CatalogView,
    id: u64,
    payload: PayloadView,
    now: u64,
)
    requires
        state.valid(),
        payload.valid(),
        state.records.contains_key(id),
    ensures
        state.update(id, payload, now).1 is Ok,
        ({
            let before = state.records[id];
            let after = state.update(id, payload, now).1->Ok_0;
            &&& after.id == id
            &&& after.created_at == before.created_at
            &&& after.name == payload.name
            &&& after.description == payload.description
            &&& after.mood_enhancing_properties == payload.mood_enhancing_properties
            &&& after.updated_at == Some(now)
            &&& now >= before.created_at ==> after.updated_at.unwrap() >= after.created_at
            &&& state.update(id, payload, now).0.read(id) == Ok::<FragranceView, ErrorView>(
                after,
            )
        }),
{
}

/// Removing a record a second time finds nothing.
pub proof fn lemma_second_removal_finds_nothing(state: CatalogView, id: u64)
    ensures
        state.delete(id).0.delete(id).1 == Err::<FragranceView, ErrorView>(delete_not_found(id)),
        state.delete(id).0.read(id) == Err::<FragranceView, ErrorView>(not_found(id)),
{
}

} // verus!
