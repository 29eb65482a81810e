//! The orders in which the records of a store are listed.

use crate::record::FragranceView;
use vstd::prelude::*;

verus! {

/// An order of the records of a store.
pub ghost enum Order {
    /// By identifier, the smallest first.
    Identifier,
    /// By creation time, the latest first; among records of one creation time, by
    /// identifier, the smallest first.
    Recency,
}

impl Order {
    /// `a` stands before `b` in this order.
    pub open spec fn before(self, a: FragranceView, b: FragranceView) -> bool {
        match self {
            Order::Identifier => a.id < b.id,
            Order::Recency => a.created_at > b.created_at || (a.created_at == b.created_at
                && a.id < b.id),
        }
    }
}

/// Each record of `records` stands before those that follow it.
pub open spec fn ordered(records: Seq<FragranceView>, order: Order) -> bool {
    forall|i: int, j: int|
        0 <= i < j < records.len() ==> order.before(#[trigger] records[i], #[trigger] records[j])
}

/// `records` holds each record of `store` once, in the given order, and nothing
/// else.
pub open spec fn is_listing(
    records: Seq<FragranceView>,
    store: Map<u64, FragranceView>,
    order: Order,
) -> bool {
    &&& ordered(records, order)
    &&& forall|i: int|
        0 <= i < records.len() ==> store.contains_key((#[trigger] records[i]).id)
            && store[records[i].id] == records[i]
    &&& forall|id: u64| #[trigger]
        store.contains_key(id) ==> exists|i: int|
            0 <= i < records.len() && (#[trigger] records[i]).id == id
}

/// The records of `store` in the given order.
pub open spec fn listing(store: Map<u64, FragranceView>, order: Order) -> Seq<FragranceView> {
    choose|records: Seq<FragranceView>| is_listing(records, store, order)
}

/// Two ordered sequences that hold the same records are equal.
proof fn lemma_same_records(a: Seq<FragranceView>, b: Seq<FragranceView>, order: Order)
    requires
        ordered(a, order),
        ordered(b, order),
        forall|i: int| 0 <= i < a.len() ==> b.contains(#[trigger] a[i]),
        forall|j: int| 0 <= j < b.len() ==> a.contains(#[trigger] b[j]),
    ensures
        a == b,
    decreases a.len(),
{
    if a.len() == 0 {
        if b.len() > 0 {
            assert(a.contains(b[0]));
        }
        assert(a =~= b);
    } else {
        assert(b.contains(a[0]));
        let x = a.last();
        let y = b.last();
        assert(b.contains(x));
        assert(a.contains(y));
        let jx = choose|j: int| 0 <= j < b.len() && b[j] == x;
        let iy = choose|i: int| 0 <= i < a.len() && a[i] == y;
        if jx < b.len() - 1 {
            assert(order.before(b[jx], y));
        }
        if iy < a.len() - 1 {
            assert(order.before(a[iy], x));
        }
        assert(x == y);
        let a0 = a.drop_last();
        let b0 = b.drop_last();
        assert forall|i: int| 0 <= i < a0.len() implies b0.contains(#[trigger] a0[i]) by {
            assert(b.contains(a[i]));
            let j = choose|j: int| 0 <= j < b.len() && b[j] == a[i];
            assert(order.before(a[i], x));
            assert(b0[j] == a0[i]);
        }
        assert forall|j: int| 0 <= j < b0.len() implies a0.contains(#[trigger] b0[j]) by {
            assert(a.contains(b[j]));
            let i = choose|i: int| 0 <= i < a.len() && a[i] == b[j];
            assert(order.before(b[j], y));
            assert(a0[i] == b0[j]);
        }
        lemma_same_records(a0, b0, order);
        assert(a =~= a0.push(x));
        assert(b =~= b0.push(y));
    }
}

/// A store has one listing in each order.
pub proof fn lemma_listing_unique(
    a: Seq<FragranceView>,
    b: Seq<FragranceView>,
    store: Map<u64, FragranceView>,
    order: Order,
)
    requires
        is_listing(a, store, order),
        is_listing(b, store, order),
    ensures
        a == b,
{
    assert forall|i: int| 0 <= i < a.len() implies b.contains(#[trigger] a[i]) by {
        assert(store.contains_key(a[i].id));
        let j = choose|j: int| 0 <= j < b.len() && (#[trigger] b[j]).id == a[i].id;
        assert(b[j] == a[i]);
    }
    assert forall|j: int| 0 <= j < b.len() implies a.contains(#[trigger] b[j]) by {
        assert(store.contains_key(b[j].id));
        let i = choose|i: int| 0 <= i < a.len() && (#[trigger] a[i]).id == b[j].id;
        assert(a[i] == b[j]);
    }
    lemma_same_records(a, b, order);
}

} // verus!
