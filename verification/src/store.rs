//! The record store: the records of the catalog by identifier, kept in their stored
//! form in a stable map.

use crate::codec::{decode_record, lemma_decode_encode};
use crate::listing::{is_listing, lemma_listing_unique, listing, Order};
use crate::record::{views, Fragrance, FragranceView};
use crate::stable::{lists, map_contents, map_entries, map_get, map_insert, map_remove, RecordMap};
use vstd::prelude::*;

verus! {

/// `bytes` is the stored form of a valid record whose identifier is `id`.
pub open spec fn holds(bytes: Seq<u8>, id: u64) -> bool {
    &&& decode_record(bytes) is Some
    &&& decode_record(bytes).unwrap().id == id
    &&& decode_record(bytes).unwrap().valid()
}

/// Every entry of `contents` is the stored form of a valid record under its own
/// identifier.
pub open spec fn holds_records(contents: Map<u64, Seq<u8>>) -> bool {
    forall|id: u64| #[trigger] contents.contains_key(id) ==> holds(contents[id], id)
}

/// The records that the entries of `contents` are the stored forms of.
pub open spec fn decoded(contents: Map<u64, Seq<u8>>) -> Map<u64, FragranceView> {
    Map::new(
        |id: u64| contents.contains_key(id),
        |id: u64| decode_record(contents[id]).unwrap(),
    )
}

/// The records of the catalog by identifier.
pub struct RecordStore {
    map: RecordMap,
}

impl View for RecordStore {
    type V = Map<u64, FragranceView>;

    closed spec fn view(&self) -> Map<u64, FragranceView> {
        decoded(map_contents(self.map))
    }
}

impl RecordStore {
    /// Every entry of the stable map is the stored form of a record.
    pub closed spec fn decodable(&self) -> bool {
        holds_records(map_contents(self.map))
    }

    /// Every record of the store is valid and stands under its own identifier.
    pub open spec fn wf(&self) -> bool {
        &&& self.decodable()
        &&& forall|id: u64| #[trigger]
            self@.contains_key(id) ==> self@[id].id == id && self@[id].valid()
    }

    /// A store over `map`, where every entry of `map` is the stored form of a valid
    /// record under its own identifier.
    pub fn load(map: RecordMap) -> (store: Option<RecordStore>)
        ensures
            store is Some <==> holds_records(map_contents(map)),
            store is Some ==> store.unwrap().wf() && store.unwrap()@ == decoded(
                map_contents(map),
            ),
    {
        let entries = map_entries(&map);
        let ghost contents = map_contents(map);
        let mut i: usize = 0;
        while i < entries.len()
            invariant
                i <= entries.len(),
                contents == map_contents(map),
                lists(entries@, contents),
                forall|j: int| 0 <= j < i ==> holds((#[trigger] entries[j]).1@, entries[j].0),
            decreases entries.len() - i,
        {
            let ok = match Fragrance::from_bytes(entries[i].1.as_slice()) {
                Some(record) => record.id == entries[i].0 && !record.name.as_str().is_empty()
                    && !record.description.as_str().is_empty(),
                None => false,
            };
            if !ok {
                proof {
                    let key = entries[i as int].0;
                    assert(contents.contains_key(key));
                    assert(!holds(contents[key], key));
                }
                return None;
            }
            i += 1;
        }
        proof {
            assert forall|id: u64| #[trigger] contents.contains_key(id) implies holds(
                contents[id],
                id,
            ) by {
                let j = choose|j: int| 0 <= j < entries.len() && (#[trigger] entries[j]).0 == id;
                assert(holds(entries[j].1@, entries[j].0));
            }
        }
        Some(RecordStore { map })
    }

    /// The record with the identifier `id`, if there is one.
    pub fn get(&self, id: u64) -> (record: Option<Fragrance>)
        requires
            self.wf(),
        ensures
            match record {
                Some(r) => self@.contains_key(id) && r@ == self@[id],
                None => !self@.contains_key(id),
            },
    {
        match map_get(&self.map, id) {
            Some(bytes) => {
                let record = Fragrance::from_bytes(bytes.as_slice());
                assert(record is Some);
                record
            },
            None => None,
        }
    }

    /// Puts `record` under its identifier, in place of the record that may be there.
    pub fn put(&mut self, record: &Fragrance)
        requires
            old(self).wf(),
            record@.valid(),
            record@.fits(),
        ensures
            final(self).wf(),
            final(self)@ == old(self)@.insert(record.id, record@),
    {
        let bytes = record.to_bytes();
        proof {
            lemma_decode_encode(record@);
        }
        map_insert(&mut self.map, record.id, &bytes);
        assert(self@ =~= old(self)@.insert(record.id, record@));
    }

    /// Removes the record with the identifier `id` and returns it, if there is one.
    pub fn remove(&mut self, id: u64) -> (record: Option<Fragrance>)
        requires
            old(self).wf(),
        ensures
            final(self).wf(),
            final(self)@ == old(self)@.remove(id),
            match record {
                Some(r) => old(self)@.contains_key(id) && r@ == old(self)@[id],
                None => !old(self)@.contains_key(id),
            },
    {
        let removed = map_remove(&mut self.map, id);
        assert(self@ =~= old(self)@.remove(id));
        match removed {
            Some(bytes) => {
                let record = Fragrance::from_bytes(bytes.as_slice());
                assert(record is Some);
                record
            },
            None => None,
        }
    }

    /// Every record of the store, in ascending order of the identifiers.
    pub fn iterate(&self) -> (records: Vec<Fragrance>)
        requires
            self.wf(),
        ensures
            views(records@) == listing(self@, Order::Identifier),
            is_listing(views(records@), self@, Order::Identifier),
    {
        let entries = map_entries(&self.map);
        let ghost contents = map_contents(self.map);
        let mut records: Vec<Fragrance> = Vec::new();
        let mut i: usize = 0;
        while i < entries.len()
            invariant
                i <= entries.len(),
                records.len() == i,
                lists(entries@, contents),
                holds_records(contents),
                forall|j: int|
                    0 <= j < i ==> decode_record((#[trigger] entries[j]).1@) == Some(records[j]@),
            decreases entries.len() - i,
        {
            proof {
                let key = entries[i as int].0;
                assert(contents.contains_key(key));
                assert(holds(contents[key], key));
            }
            match Fragrance::from_bytes(entries[i].1.as_slice()) {
                Some(record) => {
                    records.push(record);
                },
                None => {
                    assert(false);
                },
            }
            i += 1;
        }
        proof {
            let found = views(records@);
            assert forall|j: int| 0 <= j < found.len() implies self@.contains_key(
                (#[trigger] found[j]).id,
            ) && self@[found[j].id] == found[j] && found[j].id == entries[j].0 by {
                let key = entries[j].0;
                assert(contents.contains_key(key));
                assert(holds(contents[key], key));
            }
            assert forall|j: int, k: int| 0 <= j < k < found.len() implies (
            #[trigger] found[j]).id < (#[trigger] found[k]).id by {
                assert(entries[j].0 < entries[k].0);
            }
            assert forall|id: u64| #[trigger] self@.contains_key(id) implies exists|j: int|
                0 <= j < found.len() && (#[trigger] found[j]).id == id by {
                let j = choose|j: int| 0 <= j < entries.len() && (#[trigger] entries[j]).0 == id;
                assert(found[j].id == id);
            }
            assert(is_listing(found, self@, Order::Identifier));
            let listed = listing(self@, Order::Identifier);
            lemma_listing_unique(found, listed, self@, Order::Identifier);
        }
        records
    }
}

} // verus!
