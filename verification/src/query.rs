//! The read-only queries of the catalog, as functions on a list of records.

use crate::listing::{ordered, Order};
use crate::record::{texts, views, Fragrance, FragranceView};
use crate::text::{any_contains, any_of_contains, contains, text_contains};
use vstd::prelude::*;
use vstd::seq_lib::*;

verus! {

/// The name or the description of `record` contains `keyword`.
pub open spec fn found_by(record: FragranceView, keyword: Seq<char>) -> bool {
    text_contains(record.name, keyword) || text_contains(record.description, keyword)
}

/// One of the mood properties of `record` contains `keyword`.
pub open spec fn has_mood(record: FragranceView, keyword: Seq<char>) -> bool {
    any_contains(record.mood_enhancing_properties, keyword)
}

/// The test of [`found_by`] for one keyword.
pub open spec fn found_by_keyword(keyword: Seq<char>) -> spec_fn(FragranceView) -> bool {
    |record: FragranceView| found_by(record, keyword)
}

/// The test of [`has_mood`] for one keyword.
pub open spec fn has_mood_of(keyword: Seq<char>) -> spec_fn(FragranceView) -> bool {
    |record: FragranceView| has_mood(record, keyword)
}

/// The names of `records`, in order.
pub open spec fn names(records: Seq<FragranceView>) -> Seq<Seq<char>> {
    Seq::new(records.len(), |i: int| records[i].name)
}

/// Those of `records` whose name or description contains `keyword`, in order.
pub open spec fn matching(records: Seq<FragranceView>, keyword: Seq<char>) -> Seq<FragranceView> {
    records.filter(found_by_keyword(keyword))
}

/// Those of `records` with a mood property that contains `keyword`, in order.
pub open spec fn with_mood(records: Seq<FragranceView>, keyword: Seq<char>) -> Seq<FragranceView> {
    records.filter(has_mood_of(keyword))
}

/// No record of `records` is later than one that stands before it.
pub open spec fn newest_to_oldest(records: Seq<FragranceView>) -> bool {
    forall|i: int, j: int|
        0 <= i < j < records.len() ==> (#[trigger] records[i]).created_at >= (
        #[trigger] records[j]).created_at
}

/// A search by keyword keeps the records whose name or description contains the
/// keyword, and only those.
pub proof fn lemma_matching_is_exact(records: Seq<FragranceView>, keyword: Seq<char>)
    ensures
        forall|i: int|
            0 <= i < matching(records, keyword).len() ==> found_by(
                #[trigger] matching(records, keyword)[i],
                keyword,
            ) && records.contains(matching(records, keyword)[i]),
        forall|i: int|
            0 <= i < records.len() && found_by(records[i], keyword) ==> matching(
                records,
                keyword,
            ).contains(#[trigger] records[i]),
{
    let test = found_by_keyword(keyword);
    let kept = records.filter(test);
    assert forall|i: int| 0 <= i < kept.len() implies found_by(#[trigger] kept[i], keyword)
        && records.contains(kept[i]) by {
        records.lemma_filter_pred(test, i);
        assert(kept.contains(kept[i]));
        records.lemma_filter_contains_rev(test, kept[i]);
    }
    assert forall|i: int|
        0 <= i < records.len() && found_by(records[i], keyword) implies kept.contains(
        #[trigger] records[i],
    ) by {
        records.lemma_filter_contains(test, i);
    }
}

/// A filter by mood keeps the records with a mood property that contains the
/// keyword, and only those.
pub proof fn lemma_with_mood_is_exact(records: Seq<FragranceView>, keyword: Seq<char>)
    ensures
        forall|i: int|
            0 <= i < with_mood(records, keyword).len() ==> has_mood(
                #[trigger] with_mood(records, keyword)[i],
                keyword,
            ) && records.contains(with_mood(records, keyword)[i]),
        forall|i: int|
            0 <= i < records.len() && has_mood(records[i], keyword) ==> with_mood(
                records,
                keyword,
            ).contains(#[trigger] records[i]),
{
    let test = has_mood_of(keyword);
    let kept = records.filter(test);
    assert forall|i: int| 0 <= i < kept.len() implies has_mood(#[trigger] kept[i], keyword)
        && records.contains(kept[i]) by {
        records.lemma_filter_pred(test, i);
        assert(kept.contains(kept[i]));
        records.lemma_filter_contains_rev(test, kept[i]);
    }
    assert forall|i: int|
        0 <= i < records.len() && has_mood(records[i], keyword) implies kept.contains(
        #[trigger] records[i],
    ) by {
        records.lemma_filter_contains(test, i);
    }
}

/// The names of those of `records` whose name or description contains `keyword`.
pub fn names_matching(records: &Vec<Fragrance>, keyword: &str) -> (found: Vec<String>)
    ensures
        texts(found@) == names(matching(views(records@), keyword@)),
{
    let ghost all = views(records@);
    let ghost test = found_by_keyword(keyword@);
    let mut found: Vec<String> = Vec::new();
    let mut i: usize = 0;
    proof {
        reveal(Seq::filter);
        assert(all.take(0).filter(test) =~= Seq::empty());
        assert(texts(found@) =~= names(all.take(0).filter(test)));
    }
    while i < records.len()
        invariant
            i <= records.len(),
            all == views(records@),
            test == found_by_keyword(keyword@),
            texts(found@) == names(all.take(i as int).filter(test)),
        decreases records.len() - i,
    {
        let record = &records[i];
        proof {
            assert(all.take(i + 1) =~= all.take(i as int).push(record@));
            all.take(i as int).lemma_filter_push(record@, test);
        }
        if contains(record.name.as_str(), keyword) || contains(
            record.description.as_str(),
            keyword,
        ) {
            let ghost before = found@;
            found.push(record.name.clone());
            assert(texts(found@) =~= names(all.take(i as int).filter(test).push(record@))) by {
                assert(texts(found@) =~= texts(before).push(record.name@));
            }
        }
        i += 1;
    }
    assert(all.take(i as int) =~= all);
    found
}

/// Those of `records` with a mood property that contains `keyword`.
pub fn having_mood(records: &Vec<Fragrance>, keyword: &str) -> (found: Vec<Fragrance>)
    ensures
        views(found@) == with_mood(views(records@), keyword@),
{
    let ghost all = views(records@);
    let ghost test = has_mood_of(keyword@);
    let mut found: Vec<Fragrance> = Vec::new();
    let mut i: usize = 0;
    proof {
        reveal(Seq::filter);
        assert(all.take(0).filter(test) =~= Seq::empty());
        assert(views(found@) =~= all.take(0).filter(test));
    }
    while i < records.len()
        invariant
            i <= records.len(),
            all == views(records@),
            test == has_mood_of(keyword@),
            views(found@) == all.take(i as int).filter(test),
        decreases records.len() - i,
    {
        let record = &records[i];
        proof {
            assert(all.take(i + 1) =~= all.take(i as int).push(record@));
            all.take(i as int).lemma_filter_push(record@, test);
        }
        if any_of_contains(&record.mood_enhancing_properties, keyword) {
            let ghost before = found@;
            found.push(record.clone());
            assert(views(found@) =~= views(before).push(record@));
        }
        i += 1;
    }
    assert(all.take(i as int) =~= all);
    found
}

/// `origin` names for each record of `sorted` the place where it stood in `given`,
/// no place twice, and records of one creation time stand in `sorted` in the order
/// of their places in `given`.
pub open spec fn keeps_order(
    sorted: Seq<FragranceView>,
    given: Seq<FragranceView>,
    origin: Seq<int>,
) -> bool {
    &&& origin.len() == sorted.len()
    &&& given.len() == sorted.len()
    &&& forall|k: int|
        0 <= k < sorted.len() ==> 0 <= #[trigger] origin[k] < given.len() && given[origin[k]]
            == sorted[k]
    &&& forall|a: int, b: int|
        0 <= a < b < sorted.len() ==> #[trigger] origin[a] != #[trigger] origin[b]
    &&& forall|a: int, b: int|
        0 <= a < b < sorted.len() && sorted[a].created_at == sorted[b].created_at
            ==> #[trigger] origin[a] < #[trigger] origin[b]
}

/// `sorted` is `given` sorted stably by creation time, the latest first.
pub open spec fn is_newest_first(sorted: Seq<FragranceView>, given: Seq<FragranceView>) -> bool {
    &&& newest_to_oldest(sorted)
    &&& sorted.to_multiset() == given.to_multiset()
    &&& exists|origin: Seq<int>| keeps_order(sorted, given, origin)
}

/// Records that stand by ascending identifier stand by recency once they are
/// sorted stably by creation time.
pub proof fn lemma_sorted_by_recency(sorted: Seq<FragranceView>, given: Seq<FragranceView>)
    requires
        is_newest_first(sorted, given),
        ordered(given, Order::Identifier),
    ensures
        ordered(sorted, Order::Recency),
{
    let origin = choose|origin: Seq<int>| keeps_order(sorted, given, origin);
    assert forall|a: int, b: int| 0 <= a < b < sorted.len() implies Order::Recency.before(
        #[trigger] sorted[a],
        #[trigger] sorted[b],
    ) by {
        if sorted[a].created_at == sorted[b].created_at {
            assert(origin[a] < origin[b]);
            assert(Order::Identifier.before(given[origin[a]], given[origin[b]]));
        }
    }
}

/// `records` sorted stably by creation time, the latest first.
pub fn newest_first(records: Vec<Fragrance>) -> (sorted: Vec<Fragrance>)
    ensures
        is_newest_first(views(sorted@), views(records@)),
{
    let ghost given = views(records@);
    let ghost mut origin = Seq::new(given.len(), |k: int| k);
    let mut sorted = records;
    let mut i: usize = 0;
    while i < sorted.len()
        invariant
            i <= sorted.len(),
            views(sorted@).to_multiset() == given.to_multiset(),
            origin.len() == sorted.len(),
            given.len() == sorted.len(),
            forall|k: int|
                0 <= k < sorted.len() ==> 0 <= #[trigger] origin[k] < given.len()
                    && given[origin[k]] == views(sorted@)[k],
            forall|k: int| i <= k < sorted.len() ==> #[trigger] origin[k] == k,
            forall|k: int| 0 <= k < i ==> #[trigger] origin[k] < i,
            forall|a: int, b: int|
                0 <= a < b < sorted.len() ==> #[trigger] origin[a] != #[trigger] origin[b],
            forall|a: int, b: int|
                0 <= a < b < i && views(sorted@)[a].created_at == views(sorted@)[b].created_at
                    ==> #[trigger] origin[a] < #[trigger] origin[b],
            newest_to_oldest(views(sorted@).take(i as int)),
        decreases sorted.len() - i,
    {
        let created: u64 = sorted[i].created_at;
        let mut p: usize = 0;
        while p < i && sorted[p].created_at >= created
            invariant
                p <= i < sorted.len(),
                forall|k: int| 0 <= k < p ==> (#[trigger] views(sorted@)[k]).created_at >= created,
            decreases i - p,
        {
            p += 1;
        }
        let ghost before = views(sorted@);
        let ghost places = origin;
        let ghost moved = before[i as int];
        if p < i {
            let record = sorted.remove(i);
            sorted.insert(p, record);
            proof {
                origin = places.remove(i as int).insert(p as int, i as int);
            }
        }
        proof {
            let after = views(sorted@);
            if p < i {
                assert(after =~= before.remove(i as int).insert(p as int, moved));
                before.to_multiset_ensures();
                to_multiset_insert(before.remove(i as int), p as int, moved);
                assert(before.to_multiset().remove(moved).insert(moved) =~= before.to_multiset());
            } else {
                assert(after =~= before);
            }
            assert forall|k: int| 0 <= k < after.len() implies after[k] == (if k < p || k > i {
                before[k]
            } else if k == p {
                moved
            } else {
                before[k - 1]
            }) && #[trigger] origin[k] == (if k < p || k > i {
                places[k]
            } else if k == p {
                i as int
            } else {
                places[k - 1]
            }) by {}
            assert forall|k: int| 0 <= k < after.len() implies 0 <= #[trigger] origin[k]
                < given.len() && given[origin[k]] == after[k] by {
                if k < p || k > i {
                    assert(given[places[k]] == before[k]);
                } else if k == p {
                    assert(places[i as int] == i);
                    assert(given[places[i as int]] == before[i as int]);
                } else {
                    assert(given[places[k - 1]] == before[k - 1]);
                }
            }
            let head = after.take(i + 1);
            let old_head = before.take(i as int);
            assert forall|a: int, b: int| 0 <= a < b < head.len() implies (
            #[trigger] head[a]).created_at >= (#[trigger] head[b]).created_at by {
                if b < p {
                    assert(old_head[a].created_at >= old_head[b].created_at);
                } else if b == p {
                    assert(before[a].created_at >= created);
                } else if a == p {
                    assert(old_head[p as int].created_at >= old_head[b - 1].created_at);
                } else if a < p {
                    assert(old_head[a].created_at >= old_head[b - 1].created_at);
                } else {
                    assert(old_head[a - 1].created_at >= old_head[b - 1].created_at);
                }
            }
            assert forall|a: int, b: int|
                0 <= a < b < i + 1 && after[a].created_at
                    == after[b].created_at implies #[trigger] origin[a] < #[trigger] origin[b] by {
                if a == p && p < i {
                    assert(old_head[p as int].created_at >= old_head[b - 1].created_at);
                }
            }
        }
        i += 1;
    }
    assert(views(sorted@).take(i as int) =~= views(sorted@));
    assert(keeps_order(views(sorted@), given, origin));
    sorted
}

} // verus!
