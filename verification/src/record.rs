//! The record of the catalog and the payload it is made from.

use vstd::prelude::*;

verus! {

/// A catalog entry.
#[derive(Debug, PartialEq, Eq)]
pub struct Fragrance {
    pub id: u64,
    pub name: String,
    pub description: String,
    pub mood_enhancing_properties: Vec<String>,
    pub created_at: u64,
    pub updated_at: Option<u64>,
}

/// What a caller supplies to create a record or to replace the mutable fields of one.
#[derive(Debug, PartialEq, Eq)]
pub struct FragrancePayload {
    pub name: String,
    pub description: String,
    pub mood_enhancing_properties: Vec<String>,
}

/// The mathematical value of a [`Fragrance`].
pub ghost struct FragranceView {
    pub id: u64,
    pub name: Seq<char>,
    pub description: Seq<char>,
    pub mood_enhancing_properties: Seq<Seq<char>>,
    pub created_at: u64,
    pub updated_at: Option<u64>,
}

/// The mathematical value of a [`FragrancePayload`].
pub ghost struct PayloadView {
    pub name: Seq<char>,
    pub description: Seq<char>,
    pub mood_enhancing_properties: Seq<Seq<char>>,
}

/// The texts of a sequence of strings, in order.
pub open spec fn texts(strings: Seq<String>) -> Seq<Seq<char>> {
    Seq::new(strings.len(), |i: int| strings[i]@)
}

/// The values of a sequence of records, in order.
pub open spec fn views(records: Seq<Fragrance>) -> Seq<FragranceView> {
    Seq::new(records.len(), |i: int| records[i]@)
}

impl View for Fragrance {
    type V = FragranceView;

    open spec fn view(&self) -> FragranceView {
        FragranceView {
            id: self.id,
            name: self.name@,
            description: self.description@,
            mood_enhancing_properties: texts(self.mood_enhancing_properties@),
            created_at: self.created_at,
            updated_at: self.updated_at,
        }
    }
}

impl View for FragrancePayload {
    type V = PayloadView;

    open spec fn view(&self) -> PayloadView {
        PayloadView {
            name: self.name@,
            description: self.description@,
            mood_enhancing_properties: texts(self.mood_enhancing_properties@),
        }
    }
}

impl FragranceView {
    /// A record may be persisted only with a name and a description.
    pub open spec fn valid(self) -> bool {
        self.name.len() > 0 && self.description.len() > 0
    }

    /// The record that an update with `payload` at time `now` turns this one into.
    pub open spec fn updated(self, payload: PayloadView, now: u64) -> FragranceView {
        FragranceView {
            id: self.id,
            name: payload.name,
            description: payload.description,
            mood_enhancing_properties: payload.mood_enhancing_properties,
            created_at: self.created_at,
            updated_at: Some(now),
        }
    }
}

impl PayloadView {
    /// A payload is accepted only with a name and a description.
    pub open spec fn valid(self) -> bool {
        self.name.len() > 0 && self.description.len() > 0
    }

    /// The record that creating from this payload under `id` at time `now` gives.
    pub open spec fn created(self, id: u64, now: u64) -> FragranceView {
        FragranceView {
            id,
            name: self.name,
            description: self.description,
            mood_enhancing_properties: self.mood_enhancing_properties,
            created_at: now,
            updated_at: None,
        }
    }
}

/// Copies a vector of strings.
fn clone_strings(strings: &Vec<String>) -> (copy: Vec<String>)
    ensures
        texts(copy@) == texts(strings@),
{
    let mut copy: Vec<String> = Vec::new();
    let mut i: usize = 0;
    while i < strings.len()
        invariant
            i <= strings.len(),
            copy.len() == i,
            forall|j: int| 0 <= j < i ==> copy[j]@ == strings[j]@,
        decreases strings.len() - i,
    {
        copy.push(strings[i].clone());
        i += 1;
    }
    assert(texts(copy@) =~= texts(strings@));
    copy
}

impl Clone for Fragrance {
    fn clone(&self) -> (copy: Self)
        ensures
            copy@ == self@,
    {
        Fragrance {
            id: self.id,
            name: self.name.clone(),
            description: self.description.clone(),
            mood_enhancing_properties: clone_strings(&self.mood_enhancing_properties),
            created_at: self.created_at,
            updated_at: self.updated_at,
        }
    }
}

impl Clone for FragrancePayload {
    fn clone(&self) -> (copy: Self)
        ensures
            copy@ == self@,
    {
        FragrancePayload {
            name: self.name.clone(),
            description: self.description.clone(),
            mood_enhancing_properties: clone_strings(&self.mood_enhancing_properties),
        }
    }
}

impl Default for Fragrance {
    fn default() -> (record: Self)
        ensures
            record.id == 0,
            record.name@.len() == 0,
            record.description@.len() == 0,
            record.mood_enhancing_properties@.len() == 0,
            record.created_at == 0,
            record.updated_at is None,
    {
        Fragrance {
            id: 0,
            name: String::new(),
            description: String::new(),
            mood_enhancing_properties: Vec::new(),
            created_at: 0,
            updated_at: None,
        }
    }
}

impl Default for FragrancePayload {
    fn default() -> (payload: Self)
        ensures
            payload.name@.len() == 0,
            payload.description@.len() == 0,
            payload.mood_enhancing_properties@.len() == 0,
    {
        FragrancePayload {
            name: String::new(),
            description: String::new(),
            mood_enhancing_properties: Vec::new(),
        }
    }
}

} // verus!
