//! The catalog: the operations on the records and the queries over them.

use crate::allocator::IdAllocator;
use crate::codec::lemma_fits_by_texts;
use crate::error::{empty_keyword, empty_mood_keyword, no_match, no_mood_match, Error};
use crate::listing::{is_listing, lemma_listing_unique, listing, Order};
use crate::model::{outcome, CatalogView};
use crate::query::{
    having_mood, lemma_sorted_by_recency, matching, names, names_matching, newest_first, with_mood,
};
use crate::record::{texts, views, Fragrance, FragrancePayload};
use crate::stable::{
    cell_init, cell_value, default_memory, map_contents, map_init, region, IdCell, RecordMap,
    StableMemory,
};
use crate::store::{decoded, holds_records, RecordStore};
use vstd::prelude::*;

verus! {

/// The region of stable memory that holds the identifier counter.
pub const COUNTER_REGION: u8 = 0;

/// The region of stable memory that holds the records.
pub const RECORDS_REGION: u8 = 1;

/// A catalog of records in stable memory.
pub struct Catalog {
    memory: StableMemory,
    ids: IdAllocator,
    store: RecordStore,
}

impl View for Catalog {
    type V = CatalogView;

    closed spec fn view(&self) -> CatalogView {
        CatalogView { next_id: self.ids.next(), records: self.store@ }
    }
}

impl Catalog {
    /// Every entry of the stable map is the stored form of a record.
    pub closed spec fn decodable(&self) -> bool {
        self.store.decodable()
    }

    /// The invariant of the catalog.
    pub open spec fn wf(&self) -> bool {
        self.decodable() && self@.valid()
    }

    /// The catalog in `memory` over what its two regions gave: a counter, where
    /// there is one, and a map, where these hold a state of the catalog.
    pub fn assemble(
        memory: StableMemory,
        cell: Result<IdCell, ic_stable_structures::cell::InitError>,
        map: RecordMap,
    ) -> (catalog: Option<Catalog>)
        ensures
            catalog is Some <==> cell is Ok && holds_catalog(
                cell_value(cell->Ok_0),
                map_contents(map),
            ),
            catalog is Some ==> catalog.unwrap().wf() && catalog.unwrap().memory() == memory
                && catalog.unwrap()@ == (CatalogView {
                next_id: cell_value(cell->Ok_0),
                records: decoded(map_contents(map)),
            }),
    {
        let cell = match cell {
            Ok(cell) => cell,
            Err(_) => return None,
        };
        let store = match RecordStore::load(map) {
            Some(store) => store,
            None => return None,
        };
        let ids = IdAllocator::new(cell);
        let next = ids.peek();
        let records = store.iterate();
        let ghost listed = views(records@);
        if records.len() > 0 && records[records.len() - 1].id >= next {
            proof {
                let last = listed[listed.len() - 1];
                assert(store@.contains_key(last.id));
                assert(map_contents(map).contains_key(last.id));
            }
            return None;
        }
        proof {
            assert forall|id: u64| #[trigger] map_contents(map).contains_key(id) implies id
                < next by {
                assert(store@.contains_key(id));
                let i = choose|i: int| 0 <= i < listed.len() && (#[trigger] listed[i]).id == id;
                if i < listed.len() - 1 {
                    assert(Order::Identifier.before(listed[i], listed[listed.len() - 1]));
                }
            }
        }
        Some(Catalog { memory, ids, store })
    }

    /// The catalog that `memory` holds: its counter in the region
    /// [`COUNTER_REGION`], its records in the region [`RECORDS_REGION`]. A memory
    /// that holds neither gives the empty catalog, whose first identifier is 0.
    /// There is no catalog where the regions do not hold a state of one. The
    /// catalog takes the two regions as its own: nothing else may write to them
    /// while it lives.
    pub fn load(memory: StableMemory) -> (catalog: Option<Catalog>)
        ensures
            catalog is Some ==> {
                &&& catalog.unwrap().wf()
                &&& catalog.unwrap().memory() == memory
            },
    {
        let counter = region(&memory, COUNTER_REGION);
        let records = region(&memory, RECORDS_REGION);
        let cell = cell_init(counter, 0);
        let map = map_init(records);
        Catalog::assemble(memory, cell, map)
    }

    /// The catalog that the default memory holds. In a canister the default memory
    /// is the one stable memory, so that only one catalog may be open at a time.
    pub fn open() -> (catalog: Option<Catalog>)
        ensures
            catalog is Some ==> catalog.unwrap().wf(),
    {
        Catalog::load(default_memory())
    }

    /// Gives up the catalog and hands back the memory that holds its state.
    pub fn checkpoint(self) -> (memory: StableMemory)
        ensures
            memory == self.memory(),
    {
        self.memory
    }

    /// The memory that holds the state of the catalog: the one that the catalog
    /// was loaded from, whatever was done to the catalog since.
    pub closed spec fn memory(&self) -> StableMemory {
        self.memory
    }

    /// The identifier that the next record gets.
    pub fn next_id(&self) -> (next: u64)
        ensures
            next == self@.next_id,
    {
        self.ids.peek()
    }

    /// The record with the identifier `id`.
    pub fn get_fragrance(&self, id: u64) -> (found: Result<Fragrance, Error>)
        requires
            self.wf(),
        ensures
            outcome(found) == self@.read(id),
    {
        match self._get_fragrance(&id) {
            Some(fragrance) => Ok(fragrance),
            None => Err(Error::not_found(id)),
        }
    }

    /// Creates a record from `fragrance` at the time `now`, under the next
    /// identifier. A payload without a name or a description is refused before
    /// anything is touched; where the counter is stuck nothing changes either.
    pub fn add_fragrance(&mut self, fragrance: FragrancePayload, now: u64) -> (created: Result<
        Fragrance,
        Error,
    >)
        requires
            old(self).wf(),
            fragrance@.valid() ==> fragrance@.fits_new(),
        ensures
            final(self).wf(),
            final(self).memory() == old(self).memory(),
            (final(self)@, outcome(created)) == old(self)@.create(fragrance@, now, created is Ok),
    {
        if fragrance.name.as_str().is_empty() || fragrance.description.as_str().is_empty() {
            return Err(Error::empty_fields());
        }
        let id = match self.ids.next_id() {
            Ok(id) => id,
            Err(error) => {
                return Err(error);
            },
        };
        let new_fragrance = Fragrance {
            id,
            name: fragrance.name,
            description: fragrance.description,
            mood_enhancing_properties: fragrance.mood_enhancing_properties,
            created_at: now,
            updated_at: None,
        };
        proof {
            lemma_fits_by_texts(new_fragrance@, fragrance@.created(0, 0));
        }
        self.do_insert_fragrance(&new_fragrance);
        Ok(new_fragrance)
    }

    /// Replaces the name, the description and the mood properties of the record
    /// with the identifier `id` by those of `payload`, and sets its update time to
    /// `now`. A payload without a name or a description is refused before anything
    /// is touched.
    pub fn update_fragrance(&mut self, id: u64, payload: FragrancePayload, now: u64) -> (updated:
        Result<Fragrance, Error>)
        requires
            old(self).wf(),
            payload@.valid() && old(self)@.records.contains_key(id) ==> payload@.fits_updated(),
        ensures
            final(self).wf(),
            final(self).memory() == old(self).memory(),
            (final(self)@, outcome(updated)) == old(self)@.update(id, payload@, now),
    {
        if payload.name.as_str().is_empty() || payload.description.as_str().is_empty() {
            return Err(Error::empty_fields());
        }
        match self.store.get(id) {
            Some(mut fragrance) => {
                fragrance.name = payload.name;
                fragrance.description = payload.description;
                fragrance.mood_enhancing_properties = payload.mood_enhancing_properties;
                fragrance.updated_at = Some(now);
                proof {
                    lemma_fits_by_texts(fragrance@, payload@.created(0, 0).updated(payload@, 0));
                }
                self.do_insert_fragrance(&fragrance);
                Ok(fragrance)
            },
            None => Err(Error::update_not_found(id)),
        }
    }

    /// Puts `fragrance` under its identifier, in place of the record that may be
    /// there. The identifier is one that was given out.
    pub fn do_insert_fragrance(&mut self, fragrance: &Fragrance)
        requires
            old(self).wf(),
            fragrance@.valid(),
            fragrance@.fits(),
            fragrance.id < old(self)@.next_id,
        ensures
            final(self).wf(),
            final(self).memory() == old(self).memory(),
            final(self)@ == old(self)@.put(fragrance@),
    {
        self.store.put(fragrance);
    }

    /// Removes the record with the identifier `id` and returns it.
    pub fn delete_fragrance(&mut self, id: u64) -> (removed: Result<Fragrance, Error>)
        requires
            old(self).wf(),
        ensures
            final(self).wf(),
            final(self).memory() == old(self).memory(),
            (final(self)@, outcome(removed)) == old(self)@.delete(id),
    {
        match self.store.remove(id) {
            Some(fragrance) => Ok(fragrance),
            None => {
                assert(self@.records =~= old(self)@.records);
                Err(Error::delete_not_found(id))
            },
        }
    }

    /// The record with the identifier `id`, if there is one.
    pub fn _get_fragrance(&self, id: &u64) -> (found: Option<Fragrance>)
        requires
            self.wf(),
        ensures
            match found {
                Some(record) => self@.records.contains_key(*id) && record@ == self@.records[*id],
                None => !self@.records.contains_key(*id),
            },
    {
        self.store.get(*id)
    }

    /// Every record, in ascending order of the identifiers.
    pub fn list_fragrances(&self) -> (records: Vec<Fragrance>)
        requires
            self.wf(),
        ensures
            views(records@) == listing(self@.records, Order::Identifier),
            is_listing(views(records@), self@.records, Order::Identifier),
    {
        self.store.iterate()
    }

    /// The names of the records whose name or description contains `keyword`, in
    /// ascending order of the identifiers.
    pub fn search_fragrance_names(&self, keyword: String) -> (found: Result<Vec<String>, Error>)
        requires
            self.wf(),
        ensures
            keyword@.len() == 0 ==> found is Err && found.unwrap_err()@ == empty_keyword(),
            keyword@.len() > 0 ==> {
                let hits = names(matching(listing(self@.records, Order::Identifier), keyword@));
                if hits.len() == 0 {
                    found is Err && found.unwrap_err()@ == no_match(keyword@)
                } else {
                    found is Ok && texts(found.unwrap()@) == hits
                }
            },
    {
        if keyword.as_str().is_empty() {
            return Err(Error::empty_keyword());
        }
        let matching_names = names_matching(&self.store.iterate(), keyword.as_str());
        if matching_names.is_empty() {
            Err(Error::no_match(keyword.as_str()))
        } else {
            Ok(matching_names)
        }
    }

    /// The records with a mood property that contains `mood_keyword`, in ascending
    /// order of the identifiers.
    pub fn get_recommendations(&self, mood_keyword: String) -> (found: Result<
        Vec<Fragrance>,
        Error,
    >)
        requires
            self.wf(),
        ensures
            mood_keyword@.len() == 0 ==> found is Err && found.unwrap_err()@
                == empty_mood_keyword(),
            mood_keyword@.len() > 0 ==> {
                let hits = with_mood(listing(self@.records, Order::Identifier), mood_keyword@);
                if hits.len() == 0 {
                    found is Err && found.unwrap_err()@ == no_mood_match(mood_keyword@)
                } else {
                    found is Ok && views(found.unwrap()@) == hits
                }
            },
    {
        if mood_keyword.as_str().is_empty() {
            return Err(Error::empty_mood_keyword());
        }
        self.with_mood_keyword(mood_keyword.as_str())
    }

    /// The records with a mood property that contains `keyword`, in ascending order
    /// of the identifiers.
    pub fn filter_fragrances_by_mood(&self, keyword: String) -> (found: Result<
        Vec<Fragrance>,
        Error,
    >)
        requires
            self.wf(),
        ensures
            keyword@.len() == 0 ==> found is Err && found.unwrap_err()@ == empty_keyword(),
            keyword@.len() > 0 ==> {
                let hits = with_mood(listing(self@.records, Order::Identifier), keyword@);
                if hits.len() == 0 {
                    found is Err && found.unwrap_err()@ == no_mood_match(keyword@)
                } else {
                    found is Ok && views(found.unwrap()@) == hits
                }
            },
    {
        if keyword.as_str().is_empty() {
            return Err(Error::empty_keyword());
        }
        self.with_mood_keyword(keyword.as_str())
    }

    fn with_mood_keyword(&self, keyword: &str) -> (found: Result<Vec<Fragrance>, Error>)
        requires
            self.wf(),
        ensures
            ({
                let hits = with_mood(listing(self@.records, Order::Identifier), keyword@);
                if hits.len() == 0 {
                    found is Err && found.unwrap_err()@ == no_mood_match(keyword@)
                } else {
                    found is Ok && views(found.unwrap()@) == hits
                }
            }),
    {
        let matching_fragrances = having_mood(&self.store.iterate(), keyword);
        if matching_fragrances.is_empty() {
            Err(Error::no_mood_match(keyword))
        } else {
            Ok(matching_fragrances)
        }
    }

    /// Every record, the latest first; records of one creation time in ascending
    /// order of the identifiers.
    pub fn sort_fragrances_by_creation_date(&self) -> (records: Vec<Fragrance>)
        requires
            self.wf(),
        ensures
            views(records@) == listing(self@.records, Order::Recency),
            is_listing(views(records@), self@.records, Order::Recency),
    {
        let listed = self.store.iterate();
        let ghost given = views(listed@);
        let fragrances = newest_first(listed);
        proof {
            let sorted = views(fragrances@);
            let store = self@.records;
            lemma_sorted_by_recency(sorted, given);
            given.to_multiset_ensures();
            sorted.to_multiset_ensures();
            assert forall|i: int| 0 <= i < sorted.len() implies store.contains_key(
                (#[trigger] sorted[i]).id,
            ) && store[sorted[i].id] == sorted[i] by {
                assert(sorted.contains(sorted[i]));
                assert(sorted.to_multiset().count(sorted[i]) > 0);
                assert(given.to_multiset().count(sorted[i]) > 0);
                assert(given.contains(sorted[i]));
                let l = choose|l: int| 0 <= l < given.len() && given[l] == sorted[i];
                assert(store.contains_key(given[l].id));
            }
            assert forall|id: u64| #[trigger] store.contains_key(id) implies exists|i: int|
                0 <= i < sorted.len() && (#[trigger] sorted[i]).id == id by {
                let l = choose|l: int| 0 <= l < given.len() && (#[trigger] given[l]).id == id;
                assert(given.contains(given[l]));
                assert(given.to_multiset().count(given[l]) > 0);
                assert(sorted.to_multiset().count(given[l]) > 0);
                assert(sorted.contains(given[l]));
                let i = choose|i: int| 0 <= i < sorted.len() && sorted[i] == given[l];
                assert(sorted[i].id == id);
            }
            assert(is_listing(sorted, store, Order::Recency));
            lemma_listing_unique(sorted, listing(store, Order::Recency), store, Order::Recency);
        }
        fragrances
    }
}

/// A counter that stands at `counter` and a map with the entries `contents` hold a
/// state of the catalog: every entry is the stored form of a valid record under
/// its own identifier, and the counter is beyond every identifier.
pub open spec fn holds_catalog(counter: u64, contents: Map<u64, Seq<u8>>) -> bool {
    &&& holds_records(contents)
    &&& forall|id: u64| #[trigger] contents.contains_key(id) ==> id < counter
}

} // verus!
