//! The record store: two in-memory tables, one of items and one of
//! warehouses, each keyed by a unique integer id.
//!
//! Every operation is atomic: it either completes fully or leaves the store
//! unchanged. The store's view, [`StoreView`], is the mathematical state that
//! all contracts speak of.

use vstd::prelude::*;

use crate::messages;
use crate::models::{Error, ErrorKind, InventoryItem, Warehouse, WarehouseView};

verus! {

/// No element of `s` occurs twice.
pub open spec fn dup_free(s: Seq<i32>) -> bool {
    forall|i: int, j: int| 0 <= i < j < s.len() ==> s[i] != s[j]
}

/// `limit` clamped to the range `[0, len]`.
pub open spec fn clamped(limit: i64, len: int) -> int {
    if limit < 0 {
        0
    } else if limit > len {
        len
    } else {
        limit as int
    }
}

/// The view of a warehouse sequence: each record replaced by its view.
pub open spec fn whs_view(s: Seq<Warehouse>) -> Seq<WarehouseView> {
    s.map_values(|w: Warehouse| w@)
}

/// The mathematical state of a [`Store`].
#[verifier::ext_equal]
pub struct StoreView {
    pub items: Seq<InventoryItem>,
    pub warehouses: Seq<WarehouseView>,
}

/// The in-memory record store. The fields are public so that a caller can
/// stage any state, including an inconsistent one; every operation requires
/// only well-formedness ([`StoreView::wf`]).
pub struct Store {
    pub items: Vec<InventoryItem>,
    pub warehouses: Vec<Warehouse>,
}

impl View for Store {
    type V = StoreView;

    open spec fn view(&self) -> StoreView {
        StoreView { items: self.items@, warehouses: whs_view(self.warehouses@) }
    }
}

impl StoreView {
    /// No two items share an id.
    pub open spec fn items_unique(self) -> bool {
        forall|i: int, j: int|
            0 <= i < j < self.items.len() ==> self.items[i].id != self.items[j].id
    }

    /// No two warehouses share an id.
    pub open spec fn warehouses_unique(self) -> bool {
        forall|i: int, j: int|
            0 <= i < j < self.warehouses.len() ==> self.warehouses[i].id != self.warehouses[j].id
    }

    /// No warehouse lists the same item twice.
    pub open spec fn lists_dup_free(self) -> bool {
        forall|j: int| 0 <= j < self.warehouses.len() ==> dup_free(#[trigger] self.warehouses[j].items)
    }

    /// Well-formedness: unique ids on both tables, duplicate-free item lists.
    pub open spec fn wf(self) -> bool {
        self.items_unique() && self.warehouses_unique() && self.lists_dup_free()
    }

    /// Some item with id `id` is on record.
    pub open spec fn has_item(self, id: i32) -> bool {
        exists|i: int| 0 <= i < self.items.len() && (#[trigger] self.items[i]).id == id
    }

    /// The position of the item with id `id` (meaningful when `has_item`).
    pub open spec fn item_index(self, id: i32) -> int {
        choose|i: int| 0 <= i < self.items.len() && (#[trigger] self.items[i]).id == id
    }

    /// The item with id `id` (meaningful when `has_item`).
    pub open spec fn item_at(self, id: i32) -> InventoryItem {
        self.items[self.item_index(id)]
    }

    /// Some warehouse with id `id` is on record.
    pub open spec fn has_warehouse(self, id: i32) -> bool {
        exists|j: int| 0 <= j < self.warehouses.len() && (#[trigger] self.warehouses[j]).id == id
    }

    /// The position of the warehouse with id `id` (meaningful when `has_warehouse`).
    pub open spec fn warehouse_index(self, id: i32) -> int {
        choose|j: int| 0 <= j < self.warehouses.len() && (#[trigger] self.warehouses[j]).id == id
    }

    /// The warehouse with id `id` (meaningful when `has_warehouse`).
    pub open spec fn warehouse_at(self, id: i32) -> WarehouseView {
        self.warehouses[self.warehouse_index(id)]
    }

    /// The item at position `i`, if assigned, is backed by its warehouse.
    pub open spec fn item_ok(self, i: int) -> bool {
        self.items[i].warehouse matches Some(w) ==> self.has_warehouse(w)
            && self.warehouse_at(w).items.contains(self.items[i].id)
    }

    /// Entry `k` of the warehouse at position `j` points to an item that
    /// points back.
    pub open spec fn entry_ok(self, j: int, k: int) -> bool {
        self.has_item(self.warehouses[j].items[k]) && self.item_at(
            self.warehouses[j].items[k],
        ).warehouse == Some(self.warehouses[j].id)
    }

    /// The bidirectional consistency invariant: an item claims a warehouse
    /// if and only if that warehouse exists and lists the item.
    pub open spec fn consistent(self) -> bool {
        &&& forall|i: int| 0 <= i < self.items.len() ==> #[trigger] self.item_ok(i)
        &&& forall|j: int, k: int|
            0 <= j < self.warehouses.len() && 0 <= k < self.warehouses[j].items.len()
                ==> #[trigger] self.entry_ok(j, k)
    }
}

/// Under unique item ids, a position holding `id` is the position that the
/// `item_index`/`item_at` spec functions pick.
pub proof fn lemma_item_index(s: StoreView, id: i32, i: int)
    requires
        s.items_unique(),
        0 <= i < s.items.len(),
        s.items[i].id == id,
    ensures
        s.has_item(id),
        s.item_index(id) == i,
        s.item_at(id) == s.items[i],
{
    assert(s.has_item(id));
    let c = s.item_index(id);
    if c != i {
        if c < i {
            assert(s.items[c].id != s.items[i].id);
        } else {
            assert(s.items[i].id != s.items[c].id);
        }
    }
}

/// Under unique warehouse ids, a position holding `id` is the position that
/// the `warehouse_index`/`warehouse_at` spec functions pick.
pub proof fn lemma_warehouse_index(s: StoreView, id: i32, j: int)
    requires
        s.warehouses_unique(),
        0 <= j < s.warehouses.len(),
        s.warehouses[j].id == id,
    ensures
        s.has_warehouse(id),
        s.warehouse_index(id) == j,
        s.warehouse_at(id) == s.warehouses[j],
{
    assert(s.has_warehouse(id));
    let c = s.warehouse_index(id);
    if c != j {
        if c < j {
            assert(s.warehouses[c].id != s.warehouses[j].id);
        } else {
            assert(s.warehouses[j].id != s.warehouses[c].id);
        }
    }
}

/// Replacing an item by one with the same id keeps item ids unique.
pub proof fn lemma_items_update_unique(s: StoreView, i: int, it: InventoryItem)
    requires
        s.items_unique(),
        0 <= i < s.items.len(),
        it.id == s.items[i].id,
    ensures
        (StoreView { items: s.items.update(i, it), ..s }).items_unique(),
{
    let t = StoreView { items: s.items.update(i, it), ..s };
    assert forall|a: int, b: int| 0 <= a < b < t.items.len() implies t.items[a].id
        != t.items[b].id by {
        assert(s.items[a].id != s.items[b].id);
    }
}

/// Removing an item keeps item ids unique.
pub proof fn lemma_items_remove_unique(s: StoreView, i: int)
    requires
        s.items_unique(),
        0 <= i < s.items.len(),
    ensures
        (StoreView { items: s.items.remove(i), ..s }).items_unique(),
{
    let t = StoreView { items: s.items.remove(i), ..s };
    assert forall|a: int, b: int| 0 <= a < b < t.items.len() implies t.items[a].id
        != t.items[b].id by {
        let a0: int = if a < i {
            a
        } else {
            a + 1
        };
        let b0: int = if b < i {
            b
        } else {
            b + 1
        };
        assert(t.items[a] == s.items[a0]);
        assert(t.items[b] == s.items[b0]);
        assert(s.items[a0].id != s.items[b0].id);
    }
}

/// Replacing a warehouse by one with the same id keeps warehouse ids unique.
pub proof fn lemma_warehouses_update_unique(s: StoreView, j: int, w: WarehouseView)
    requires
        s.warehouses_unique(),
        0 <= j < s.warehouses.len(),
        w.id == s.warehouses[j].id,
    ensures
        (StoreView { warehouses: s.warehouses.update(j, w), ..s }).warehouses_unique(),
{
    let t = StoreView { warehouses: s.warehouses.update(j, w), ..s };
    assert forall|a: int, b: int| 0 <= a < b < t.warehouses.len() implies t.warehouses[a].id
        != t.warehouses[b].id by {
        assert(s.warehouses[a].id != s.warehouses[b].id);
    }
}

/// Removing a warehouse keeps warehouse ids unique.
pub proof fn lemma_warehouses_remove_unique(s: StoreView, j: int)
    requires
        s.warehouses_unique(),
        0 <= j < s.warehouses.len(),
    ensures
        (StoreView { warehouses: s.warehouses.remove(j), ..s }).warehouses_unique(),
{
    let t = StoreView { warehouses: s.warehouses.remove(j), ..s };
    assert forall|a: int, b: int| 0 <= a < b < t.warehouses.len() implies t.warehouses[a].id
        != t.warehouses[b].id by {
        let a0: int = if a < j {
            a
        } else {
            a + 1
        };
        let b0: int = if b < j {
            b
        } else {
            b + 1
        };
        assert(t.warehouses[a] == s.warehouses[a0]);
        assert(t.warehouses[b] == s.warehouses[b0]);
        assert(s.warehouses[a0].id != s.warehouses[b0].id);
    }
}

/// The view of a pushed warehouse sequence.
pub proof fn lemma_whs_view_push(s: Seq<Warehouse>, w: Warehouse)
    ensures
        whs_view(s.push(w)) =~= whs_view(s).push(w@),
{
}

/// The view of an updated warehouse sequence.
pub proof fn lemma_whs_view_update(s: Seq<Warehouse>, j: int, w: Warehouse)
    requires
        0 <= j < s.len(),
    ensures
        whs_view(s.update(j, w)) =~= whs_view(s).update(j, w@),
{
}

/// The view of a warehouse sequence with one record removed.
pub proof fn lemma_whs_view_remove(s: Seq<Warehouse>, j: int)
    requires
        0 <= j < s.len(),
    ensures
        whs_view(s.remove(j)) =~= whs_view(s).remove(j),
{
}

/// Whether `ids` contains `id`.
pub fn contains_id(ids: &Vec<i32>, id: i32) -> (r: bool)
    ensures
        r == ids@.contains(id),
{
    let mut k: usize = 0;
    while k < ids.len()
        invariant
            k <= ids@.len(),
            forall|m: int| 0 <= m < k ==> ids@[m] != id,
        decreases ids@.len() - k,
    {
        if ids[k] == id {
            return true;
        }
        k = k + 1;
    }
    false
}

/// The position of the first occurrence of `x` in `ids`, if any.
pub fn position_of(ids: &Vec<i32>, x: i32) -> (r: Option<usize>)
    ensures
        r matches Some(p) ==> p < ids@.len() && ids@[p as int] == x,
        r is None ==> !ids@.contains(x),
{
    let mut k: usize = 0;
    while k < ids.len()
        invariant
            k <= ids@.len(),
            forall|m: int| 0 <= m < k ==> ids@[m] != x,
        decreases ids@.len() - k,
    {
        if ids[k] == x {
            return Some(k);
        }
        k = k + 1;
    }
    None
}

/// Whether some id occurs twice in `ids`.
pub fn has_duplicate(ids: &Vec<i32>) -> (r: bool)
    ensures
        r == !dup_free(ids@),
{
    let mut k: usize = 0;
    while k < ids.len()
        invariant
            k <= ids@.len(),
            dup_free(ids@.take(k as int)),
        decreases ids@.len() - k,
    {
        let mut m: usize = 0;
        while m < k
            invariant
                m <= k,
                k < ids@.len(),
                forall|p: int| 0 <= p < m ==> ids@[p] != ids@[k as int],
            decreases k - m,
        {
            if ids[m] == ids[k] {
                return true;
            }
            m = m + 1;
        }
        proof {
            let t = ids@.take(k as int + 1);
            assert forall|a: int, b: int| 0 <= a < b < t.len() implies t[a] != t[b] by {
                if b < k {
                    assert(ids@.take(k as int)[a] != ids@.take(k as int)[b]);
                } else {
                    assert(t[a] == ids@[a]);
                    assert(t[b] == ids@[k as int]);
                }
            }
        }
        k = k + 1;
    }
    proof {
        assert(ids@.take(ids@.len() as int) =~= ids@);
    }
    false
}

/// An exact copy of a warehouse record.
pub fn copy_warehouse(w: &Warehouse) -> (r: Warehouse)
    ensures
        r@ == w@,
{
    let mut ids: Vec<i32> = Vec::new();
    let mut k: usize = 0;
    while k < w.items.len()
        invariant
            k <= w.items.len(),
            ids@ == w.items@.take(k as int),
        decreases w.items.len() - k,
    {
        ids.push(w.items[k]);
        assert(w.items@.take(k as int + 1) =~= w.items@.take(k as int).push(w.items@[k as int]));
        k = k + 1;
    }
    assert(w.items@.take(w.items@.len() as int) =~= w.items@);
    let r = Warehouse { id: w.id, items: ids };
    assert(r@ =~= w@);
    r
}

impl Store {
    /// An empty store: well-formed and trivially consistent.
    pub fn new() -> (r: Store)
        ensures
            r@.items.len() == 0,
            r@.warehouses.len() == 0,
            r@.wf(),
            r@.consistent(),
    {
        let r = Store { items: Vec::new(), warehouses: Vec::new() };
        assert(r@.warehouses =~= Seq::<WarehouseView>::empty());
        r
    }

    /// The position of the item with id `id`, if any.
    pub fn find_item(&self, id: i32) -> (r: Option<usize>)
        ensures
            r matches Some(i) ==> i < self@.items.len() && self@.items[i as int].id == id,
            r is None ==> !self@.has_item(id),
    {
        let mut i: usize = 0;
        while i < self.items.len()
            invariant
                i <= self@.items.len(),
                forall|m: int| 0 <= m < i ==> (#[trigger] self@.items[m]).id != id,
            decreases self@.items.len() - i,
        {
            if self.items[i].id == id {
                return Some(i);
            }
            i = i + 1;
        }
        None
    }

    /// The position of the warehouse with id `id`, if any.
    pub fn find_warehouse(&self, id: i32) -> (r: Option<usize>)
        ensures
            r matches Some(j) ==> j < self@.warehouses.len() && self@.warehouses[j as int].id
                == id,
            r is None ==> !self@.has_warehouse(id),
    {
        let mut j: usize = 0;
        while j < self.warehouses.len()
            invariant
                j <= self@.warehouses.len(),
                forall|m: int| 0 <= m < j ==> (#[trigger] self@.warehouses[m]).id != id,
            decreases self@.warehouses.len() - j,
        {
            if self.warehouses[j].id == id {
                return Some(j);
            }
            j = j + 1;
        }
        None
    }
}


/// The items whose id is listed in `ids`, in store order, at most `limit`
/// of them.
pub open spec fn filter_items_limited(
    items: Seq<InventoryItem>,
    ids: Seq<i32>,
    limit: int,
) -> Seq<InventoryItem>
    decreases items.len(),
{
    if limit <= 0 || items.len() == 0 {
        Seq::empty()
    } else if ids.contains(items[0].id) {
        seq![items[0]] + filter_items_limited(items.drop_first(), ids, limit - 1)
    } else {
        filter_items_limited(items.drop_first(), ids, limit)
    }
}

/// The warehouses whose id is listed in `ids`, in store order, at most
/// `limit` of them.
pub open spec fn filter_warehouses_limited(
    whs: Seq<WarehouseView>,
    ids: Seq<i32>,
    limit: int,
) -> Seq<WarehouseView>
    decreases whs.len(),
{
    if limit <= 0 || whs.len() == 0 {
        Seq::empty()
    } else if ids.contains(whs[0].id) {
        seq![whs[0]] + filter_warehouses_limited(whs.drop_first(), ids, limit - 1)
    } else {
        filter_warehouses_limited(whs.drop_first(), ids, limit)
    }
}

impl Store {
    /// Point lookup of an item by id.
    pub fn get_item(&self, id: i32) -> (r: Result<InventoryItem, Error>)
        requires
            self@.wf(),
        ensures
            self@.has_item(id) ==> r == Ok::<InventoryItem, Error>(self@.item_at(id)),
            !self@.has_item(id) ==> (r matches Err(e) && e.kind == ErrorKind::NotFound
                && e.msg@ == messages::msg_item_missing(id as int)),
    {
        match self.find_item(id) {
            Some(i) => {
                proof {
                    lemma_item_index(self@, id, i as int);
                }
                Ok(self.items[i])
            },
            None => Err(
                Error { kind: ErrorKind::NotFound, msg: messages::build_item_missing(id) },
            ),
        }
    }

    /// The first `limit` items, in store order.
    pub fn get_items(&self, limit: i64) -> (r: Vec<InventoryItem>)
        ensures
            r@ == self@.items.take(clamped(limit, self@.items.len() as int)),
    {
        let mut out: Vec<InventoryItem> = Vec::new();
        if limit <= 0 {
            assert(out@ =~= self@.items.take(0));
            return out;
        }
        let mut i: usize = 0;
        while i < self.items.len() && (i as u64) < (limit as u64)
            invariant
                limit > 0,
                i <= self@.items.len(),
                i as u64 <= limit as u64,
                out@ == self@.items.take(i as int),
            decreases self@.items.len() - i,
        {
            out.push(self.items[i]);
            assert(self@.items.take(i as int + 1) =~= self@.items.take(i as int).push(
                self@.items[i as int],
            ));
            i = i + 1;
        }
        proof {
            assert(i as int == clamped(limit, self@.items.len() as int));
        }
        out
    }

    /// The items whose id is in `ids`, in store order, at most `limit` of
    /// them.
    pub fn get_items_by_id(&self, limit: i64, ids: &Vec<i32>) -> (r: Vec<InventoryItem>)
        ensures
            r@ == filter_items_limited(self@.items, ids@, limit as int),
    {
        let mut out: Vec<InventoryItem> = Vec::new();
        if limit <= 0 {
            return out;
        }
        let mut i: usize = 0;
        proof {
            assert(self@.items.skip(0) =~= self@.items);
            assert(out@ + filter_items_limited(self@.items, ids@, limit as int)
                =~= filter_items_limited(self@.items, ids@, limit as int));
        }
        while i < self.items.len() && (out.len() as u64) < (limit as u64)
            invariant
                limit > 0,
                i <= self@.items.len(),
                out@.len() as u64 <= limit as u64,
                filter_items_limited(self@.items, ids@, limit as int) == out@
                    + filter_items_limited(
                    self@.items.skip(i as int),
                    ids@,
                    limit as int - out@.len(),
                ),
            decreases self@.items.len() - i,
        {
            let ghost rest = self@.items.skip(i as int);
            proof {
                assert(rest.drop_first() =~= self@.items.skip(i as int + 1));
                assert(rest[0] == self@.items[i as int]);
            }
            if contains_id(ids, self.items[i].id) {
                out.push(self.items[i]);
                proof {
                    assert(out@ =~= out@.drop_last().push(rest[0]));
                    assert(out@.drop_last() + (seq![rest[0]] + filter_items_limited(
                        rest.drop_first(),
                        ids@,
                        limit as int - out@.len(),
                    )) =~= out@ + filter_items_limited(
                        rest.drop_first(),
                        ids@,
                        limit as int - out@.len(),
                    ));
                }
            }
            i = i + 1;
        }
        proof {
            if i == self@.items.len() {
                assert(self@.items.skip(i as int) =~= Seq::<InventoryItem>::empty());
            }
            assert(filter_items_limited(self@.items, ids@, limit as int) =~= out@);
        }
        out
    }

    /// Inserts a fresh item record as given; a duplicate id is refused.
    pub fn insert_item(&mut self, item: &InventoryItem) -> (r: Result<InventoryItem, Error>)
        requires
            old(self)@.wf(),
        ensures
            final(self)@.wf(),
            old(self)@.has_item(item.id) ==> (r matches Err(e) && e.kind == ErrorKind::Conflict
                && e.msg@ == messages::msg_item_exists(item.id as int) && final(self)@ == old(self)@),
            !old(self)@.has_item(item.id) ==> r == Ok::<InventoryItem, Error>(*item) && final(self)@
                == (StoreView { items: old(self)@.items.push(*item), ..old(self)@ }),
    {
        match self.find_item(item.id) {
            Some(_) => Err(
                Error { kind: ErrorKind::Conflict, msg: messages::build_item_exists(item.id) },
            ),
            None => {
                self.items.push(*item);
                proof {
                    assert(self@ =~= (StoreView {
                        items: old(self)@.items.push(*item),
                        ..old(self)@
                    }));
                }
                Ok(*item)
            },
        }
    }

    /// Replaces the item record with id `item.id` by `item`.
    pub fn update_item(&mut self, item: &InventoryItem) -> (r: Result<InventoryItem, Error>)
        requires
            old(self)@.wf(),
        ensures
            final(self)@.wf(),
            !old(self)@.has_item(item.id) ==> (r matches Err(e) && e.kind == ErrorKind::NotFound
                && e.msg@ == messages::msg_item_missing(item.id as int) && final(self)@ == old(self)@),
            old(self)@.has_item(item.id) ==> r == Ok::<InventoryItem, Error>(*item) && final(self)@
                == (StoreView {
                items: old(self)@.items.update(old(self)@.item_index(item.id), *item),
                ..old(self)@
            }),
    {
        match self.find_item(item.id) {
            Some(i) => {
                proof {
                    lemma_item_index(self@, item.id, i as int);
                    lemma_items_update_unique(self@, i as int, *item);
                }
                self.items[i] = *item;
                proof {
                    assert(self@ =~= (StoreView {
                        items: old(self)@.items.update(old(self)@.item_index(item.id), *item),
                        ..old(self)@
                    }));
                }
                Ok(*item)
            },
            None => Err(
                Error { kind: ErrorKind::NotFound, msg: messages::build_item_missing(item.id) },
            ),
        }
    }

    /// Deletes the item record with id `id` and returns it.
    pub fn delete_item(&mut self, id: i32) -> (r: Result<InventoryItem, Error>)
        requires
            old(self)@.wf(),
        ensures
            final(self)@.wf(),
            !old(self)@.has_item(id) ==> (r matches Err(e) && e.kind == ErrorKind::NotFound
                && e.msg@ == messages::msg_item_missing(id as int) && final(self)@ == old(self)@),
            old(self)@.has_item(id) ==> r == Ok::<InventoryItem, Error>(old(self)@.item_at(id))
                && final(self)@ == (StoreView {
                items: old(self)@.items.remove(old(self)@.item_index(id)),
                ..old(self)@
            }),
    {
        match self.find_item(id) {
            Some(i) => {
                proof {
                    lemma_item_index(self@, id, i as int);
                    lemma_items_remove_unique(self@, i as int);
                }
                let it = self.items.remove(i);
                proof {
                    assert(self@ =~= (StoreView {
                        items: old(self)@.items.remove(old(self)@.item_index(id)),
                        ..old(self)@
                    }));
                }
                Ok(it)
            },
            None => Err(
                Error { kind: ErrorKind::NotFound, msg: messages::build_item_missing(id) },
            ),
        }
    }

    /// Point lookup of a warehouse by id.
    pub fn get_warehouse(&self, id: i32) -> (r: Result<Warehouse, Error>)
        requires
            self@.wf(),
        ensures
            self@.has_warehouse(id) ==> (r matches Ok(w) && w@ == self@.warehouse_at(id)),
            !self@.has_warehouse(id) ==> (r matches Err(e) && e.kind == ErrorKind::NotFound
                && e.msg@ == messages::msg_warehouse_missing(id as int)),
    {
        match self.find_warehouse(id) {
            Some(j) => {
                proof {
                    lemma_warehouse_index(self@, id, j as int);
                }
                Ok(copy_warehouse(&self.warehouses[j]))
            },
            None => Err(
                Error { kind: ErrorKind::NotFound, msg: messages::build_warehouse_missing(id) },
            ),
        }
    }

    /// The first `limit` warehouses, in store order.
    pub fn get_warehouses(&self, limit: i64) -> (r: Vec<Warehouse>)
        ensures
            whs_view(r@) == self@.warehouses.take(clamped(limit, self@.warehouses.len() as int)),
    {
        let mut out: Vec<Warehouse> = Vec::new();
        if limit <= 0 {
            assert(whs_view(out@) =~= self@.warehouses.take(0));
            return out;
        }
        let mut j: usize = 0;
        while j < self.warehouses.len() && (j as u64) < (limit as u64)
            invariant
                limit > 0,
                j <= self@.warehouses.len(),
                j as u64 <= limit as u64,
                whs_view(out@) == self@.warehouses.take(j as int),
            decreases self@.warehouses.len() - j,
        {
            let w = copy_warehouse(&self.warehouses[j]);
            proof {
                lemma_whs_view_push(out@, w);
            }
            out.push(w);
            assert(whs_view(out@) =~= self@.warehouses.take(j as int + 1));
            j = j + 1;
        }
        proof {
            assert(j as int == clamped(limit, self@.warehouses.len() as int));
        }
        out
    }

    /// The warehouses whose id is in `ids`, in store order, at most `limit`
    /// of them.
    pub fn get_warehouses_by_id(&self, limit: i64, ids: &Vec<i32>) -> (r: Vec<Warehouse>)
        ensures
            whs_view(r@) == filter_warehouses_limited(self@.warehouses, ids@, limit as int),
    {
        let mut out: Vec<Warehouse> = Vec::new();
        if limit <= 0 {
            assert(whs_view(out@) =~= Seq::<WarehouseView>::empty());
            return out;
        }
        let mut j: usize = 0;
        proof {
            assert(self@.warehouses.skip(0) =~= self@.warehouses);
            assert(whs_view(out@) =~= Seq::<WarehouseView>::empty());
            assert(whs_view(out@) + filter_warehouses_limited(self@.warehouses, ids@, limit as int)
                =~= filter_warehouses_limited(self@.warehouses, ids@, limit as int));
        }
        while j < self.warehouses.len() && (out.len() as u64) < (limit as u64)
            invariant
                limit > 0,
                j <= self@.warehouses.len(),
                out@.len() as u64 <= limit as u64,
                whs_view(out@).len() == out@.len(),
                filter_warehouses_limited(self@.warehouses, ids@, limit as int) == whs_view(out@)
                    + filter_warehouses_limited(
                    self@.warehouses.skip(j as int),
                    ids@,
                    limit as int - out@.len(),
                ),
            decreases self@.warehouses.len() - j,
        {
            let ghost rest = self@.warehouses.skip(j as int);
            proof {
                assert(rest.drop_first() =~= self@.warehouses.skip(j as int + 1));
                assert(rest[0] == self@.warehouses[j as int]);
            }
            if contains_id(ids, self.warehouses[j].id) {
                let w = copy_warehouse(&self.warehouses[j]);
                proof {
                    lemma_whs_view_push(out@, w);
                }
                out.push(w);
                proof {
                    assert(whs_view(out@) =~= whs_view(out@).drop_last().push(rest[0]));
                    assert(whs_view(out@).drop_last() + (seq![rest[0]]
                        + filter_warehouses_limited(
                        rest.drop_first(),
                        ids@,
                        limit as int - out@.len(),
                    )) =~= whs_view(out@) + filter_warehouses_limited(
                        rest.drop_first(),
                        ids@,
                        limit as int - out@.len(),
                    ));
                }
            }
            j = j + 1;
        }
        proof {
            if j == self@.warehouses.len() {
                assert(self@.warehouses.skip(j as int) =~= Seq::<WarehouseView>::empty());
            }
            assert(filter_warehouses_limited(self@.warehouses, ids@, limit as int) =~= whs_view(
                out@,
            ));
        }
        out
    }

    /// Inserts a fresh warehouse record as given; a duplicate id or a list
    /// that repeats an item is refused.
    pub fn insert_warehouse(&mut self, whouse: &Warehouse) -> (r: Result<Warehouse, Error>)
        requires
            old(self)@.wf(),
        ensures
            final(self)@.wf(),
            old(self)@.has_warehouse(whouse.id) ==> (r matches Err(e) && e.kind
                == ErrorKind::Conflict && e.msg@ == messages::msg_warehouse_exists(
                whouse.id as int,
            ) && final(self)@ == old(self)@),
            !old(self)@.has_warehouse(whouse.id) && !dup_free(whouse@.items) ==> (r matches Err(e)
                && e.kind == ErrorKind::Conflict && e.msg@ == messages::msg_warehouse_list_duplicated(
                whouse.id as int,
            ) && final(self)@ == old(self)@),
            !old(self)@.has_warehouse(whouse.id) && dup_free(whouse@.items) ==> (r matches Ok(out)
                && out@ == whouse@ && final(self)@ == (StoreView {
                warehouses: old(self)@.warehouses.push(whouse@),
                ..old(self)@
            })),
    {
        match self.find_warehouse(whouse.id) {
            Some(_) => Err(
                Error {
                    kind: ErrorKind::Conflict,
                    msg: messages::build_warehouse_exists(whouse.id),
                },
            ),
            None => {
                if has_duplicate(&whouse.items) {
                    return Err(
                        Error {
                            kind: ErrorKind::Conflict,
                            msg: messages::build_warehouse_list_duplicated(whouse.id),
                        },
                    );
                }
                let w = copy_warehouse(whouse);
                proof {
                    lemma_whs_view_push(self.warehouses@, w);
                }
                self.warehouses.push(w);
                proof {
                    assert(self@ =~= (StoreView {
                        warehouses: old(self)@.warehouses.push(whouse@),
                        ..old(self)@
                    }));
                }
                Ok(copy_warehouse(whouse))
            },
        }
    }

    /// Replaces the warehouse record with id `whouse.id` by `whouse`; a list
    /// that repeats an item is refused.
    pub fn update_warehouse(&mut self, whouse: &Warehouse) -> (r: Result<Warehouse, Error>)
        requires
            old(self)@.wf(),
        ensures
            final(self)@.wf(),
            !old(self)@.has_warehouse(whouse.id) ==> (r matches Err(e) && e.kind
                == ErrorKind::NotFound && e.msg@ == messages::msg_warehouse_missing(
                whouse.id as int,
            ) && final(self)@ == old(self)@),
            old(self)@.has_warehouse(whouse.id) && !dup_free(whouse@.items) ==> (r matches Err(e)
                && e.kind == ErrorKind::Conflict && e.msg@ == messages::msg_warehouse_list_duplicated(
                whouse.id as int,
            ) && final(self)@ == old(self)@),
            old(self)@.has_warehouse(whouse.id) && dup_free(whouse@.items) ==> (r matches Ok(out)
                && out@ == whouse@ && final(self)@ == (StoreView {
                warehouses: old(self)@.warehouses.update(
                    old(self)@.warehouse_index(whouse.id),
                    whouse@,
                ),
                ..old(self)@
            })),
    {
        match self.find_warehouse(whouse.id) {
            Some(j) => {
                if has_duplicate(&whouse.items) {
                    return Err(
                        Error {
                            kind: ErrorKind::Conflict,
                            msg: messages::build_warehouse_list_duplicated(whouse.id),
                        },
                    );
                }
                proof {
                    lemma_warehouse_index(self@, whouse.id, j as int);
                    lemma_warehouses_update_unique(self@, j as int, whouse@);
                    lemma_whs_view_update(self.warehouses@, j as int, *whouse);
                }
                let w = copy_warehouse(whouse);
                self.warehouses[j] = w;
                proof {
                    assert(self@ =~= (StoreView {
                        warehouses: old(self)@.warehouses.update(
                            old(self)@.warehouse_index(whouse.id),
                            whouse@,
                        ),
                        ..old(self)@
                    }));
                }
                Ok(copy_warehouse(whouse))
            },
            None => Err(
                Error {
                    kind: ErrorKind::NotFound,
                    msg: messages::build_warehouse_missing(whouse.id),
                },
            ),
        }
    }

    /// Deletes the warehouse record with id `id` and returns it.
    pub fn delete_warehouse(&mut self, id: i32) -> (r: Result<Warehouse, Error>)
        requires
            old(self)@.wf(),
        ensures
            final(self)@.wf(),
            !old(self)@.has_warehouse(id) ==> (r matches Err(e) && e.kind == ErrorKind::NotFound
                && e.msg@ == messages::msg_warehouse_missing(id as int) && final(self)@ == old(self)@),
            old(self)@.has_warehouse(id) ==> (r matches Ok(w) && w@ == old(self)@.warehouse_at(id)
                && final(self)@ == (StoreView {
                warehouses: old(self)@.warehouses.remove(old(self)@.warehouse_index(id)),
                ..old(self)@
            })),
    {
        match self.find_warehouse(id) {
            Some(j) => {
                proof {
                    lemma_warehouse_index(self@, id, j as int);
                    lemma_warehouses_remove_unique(self@, j as int);
                    lemma_whs_view_remove(self.warehouses@, j as int);
                }
                let w = self.warehouses.remove(j);
                proof {
                    assert(self@ =~= (StoreView {
                        warehouses: old(self)@.warehouses.remove(old(self)@.warehouse_index(id)),
                        ..old(self)@
                    }));
                }
                Ok(w)
            },
            None => Err(
                Error { kind: ErrorKind::NotFound, msg: messages::build_warehouse_missing(id) },
            ),
        }
    }
}

} // verus!
