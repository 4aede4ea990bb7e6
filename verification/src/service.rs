//! The relationship core: the operations that keep an item's `warehouse`
//! field and a warehouse's `items` list mutually consistent.
//!
//! Each operation validates its inputs in full before touching the store, so
//! a failed call leaves the store exactly as it was, and a successful call
//! preserves the bidirectional consistency invariant
//! ([`StoreView::consistent`]). The effect of each successful call is a
//! spec-level step function (`assign_step` and friends), so that laws that
//! relate several operations can be stated and proved over those functions.

use vstd::pervasive::unreached;
use vstd::prelude::*;

use crate::messages;
use crate::models::{Error, ErrorKind, InventoryItem, Warehouse, WarehouseView};
use crate::store::{
    contains_id, copy_warehouse, dup_free, lemma_item_index, lemma_items_remove_unique,
    lemma_warehouses_remove_unique, lemma_whs_view_remove,
    lemma_items_update_unique,
    lemma_warehouse_index, lemma_warehouses_update_unique, lemma_whs_view_push,
    lemma_whs_view_update, position_of,
    filter_items_limited, Store, StoreView,
};

verus! {

/// A `has_item` witness turned into facts about `item_index`/`item_at`.
pub proof fn lemma_item_found(s: StoreView, id: i32)
    requires
        s.has_item(id),
    ensures
        0 <= s.item_index(id) < s.items.len(),
        s.items[s.item_index(id)].id == id,
        s.item_at(id).id == id,
{
}

/// A `has_warehouse` witness turned into facts about
/// `warehouse_index`/`warehouse_at`.
pub proof fn lemma_warehouse_found(s: StoreView, id: i32)
    requires
        s.has_warehouse(id),
    ensures
        0 <= s.warehouse_index(id) < s.warehouses.len(),
        s.warehouses[s.warehouse_index(id)].id == id,
        s.warehouse_at(id).id == id,
{
}

/// Appending to a duplicate-free list keeps it duplicate-free when the new
/// element is fresh.
pub proof fn lemma_push_dup_free(s: Seq<i32>, x: i32)
    requires
        dup_free(s),
        !s.contains(x),
    ensures
        dup_free(s.push(x)),
{
    let t = s.push(x);
    assert forall|a: int, b: int| 0 <= a < b < t.len() implies t[a] != t[b] by {
        if b < s.len() {
            assert(s[a] != s[b]);
        } else {
            assert(t[a] == s[a]);
            if s[a] == x {
                assert(s.contains(x));
            }
        }
    }
}

/// Everything `s` contains, `s.push(y)` contains.
pub proof fn lemma_contains_push(s: Seq<i32>, x: i32, y: i32)
    requires
        s.contains(x),
    ensures
        s.push(y).contains(x),
{
    let k = choose|k: int| 0 <= k < s.len() && s[k] == x;
    assert(s.push(y)[k] == x);
}

/// A pushed element is contained.
pub proof fn lemma_push_contains_last(s: Seq<i32>, y: i32)
    ensures
        s.push(y).contains(y),
{
    assert(s.push(y)[s.len() as int] == y);
}

/// When assigning `item_id` to warehouse `w_id` succeeds: the item exists and
/// is unassigned, the warehouse exists, and its list does not already name
/// the item.
pub open spec fn assign_allowed(s: StoreView, w_id: i32, item_id: i32) -> bool {
    &&& s.has_item(item_id)
    &&& s.item_at(item_id).warehouse is None
    &&& s.has_warehouse(w_id)
    &&& !s.warehouse_at(w_id).items.contains(item_id)
}

/// The store after a successful assign: the item points at the warehouse,
/// and the warehouse's list gains the item id at its end.
pub open spec fn assign_step(s: StoreView, w_id: i32, item_id: i32) -> StoreView {
    StoreView {
        items: s.items.update(
            s.item_index(item_id),
            (InventoryItem { warehouse: Some(w_id), ..s.item_at(item_id) }),
        ),
        warehouses: s.warehouses.update(
            s.warehouse_index(w_id),
            (WarehouseView { items: s.warehouse_at(w_id).items.push(item_id), ..s.warehouse_at(
                w_id,
            ) }),
        ),
    }
}

/// The error a failed assign reports, by the first rule violated: a missing
/// item, an item already assigned (to this or to another warehouse), a
/// missing warehouse, or a warehouse list that already names the item.
pub open spec fn assign_error(s: StoreView, w_id: i32, item_id: i32, e: Error) -> bool {
    if !s.has_item(item_id) {
        e.kind == ErrorKind::NotFound && e.msg@ == messages::msg_item_missing(item_id as int)
    } else {
        match s.item_at(item_id).warehouse {
            Some(cur) => e.kind == ErrorKind::Conflict && e.msg@ == (if cur == w_id {
                messages::msg_already_this_warehouse(item_id as int, w_id as int)
            } else {
                messages::msg_already_other_warehouse(item_id as int, w_id as int, cur as int)
            }),
            None => if !s.has_warehouse(w_id) {
                e.kind == ErrorKind::NotFound && e.msg@ == messages::msg_warehouse_missing(
                    w_id as int,
                )
            } else {
                e.kind == ErrorKind::Inconsistency && e.msg@ == messages::msg_assign_inconsistent(
                    item_id as int,
                    w_id as int,
                )
            },
        }
    }
}

/// A successful assign preserves well-formedness.
pub proof fn lemma_assign_step_wf(s: StoreView, w_id: i32, item_id: i32)
    requires
        s.wf(),
        assign_allowed(s, w_id, item_id),
    ensures
        assign_step(s, w_id, item_id).wf(),
{
    let i = s.item_index(item_id);
    let j = s.warehouse_index(w_id);
    lemma_item_found(s, item_id);
    lemma_warehouse_found(s, w_id);
    let t = assign_step(s, w_id, item_id);
    lemma_items_update_unique(
        s,
        i,
        (InventoryItem { warehouse: Some(w_id), ..s.item_at(item_id) }),
    );
    lemma_warehouses_update_unique(
        s,
        j,
        (WarehouseView { items: s.warehouse_at(w_id).items.push(item_id), ..s.warehouse_at(
            w_id,
        ) }),
    );
    lemma_push_dup_free(s.warehouse_at(w_id).items, item_id);
    assert forall|b: int| 0 <= b < t.warehouses.len() implies dup_free(
        #[trigger] t.warehouses[b].items,
    ) by {
        if b != j {
            assert(dup_free(s.warehouses[b].items));
        }
    }
}

/// A successful assign preserves the consistency invariant.
pub proof fn lemma_assign_step_consistent(s: StoreView, w_id: i32, item_id: i32)
    requires
        s.wf(),
        s.consistent(),
        assign_allowed(s, w_id, item_id),
    ensures
        assign_step(s, w_id, item_id).consistent(),
{
    let i = s.item_index(item_id);
    let j = s.warehouse_index(w_id);
    lemma_item_found(s, item_id);
    lemma_warehouse_found(s, w_id);
    let t = assign_step(s, w_id, item_id);
    lemma_assign_step_wf(s, w_id, item_id);

    // Item side: every assigned item is still backed by its warehouse.
    assert forall|a: int| 0 <= a < t.items.len() implies #[trigger] t.item_ok(a) by {
        if a == i {
            assert(t.items[i].warehouse == Some(w_id));
            assert(t.warehouses[j].id == w_id);
            lemma_warehouse_index(t, w_id, j);
            lemma_push_contains_last(s.warehouse_at(w_id).items, item_id);
            assert(t.warehouse_at(w_id).items.contains(item_id));
        } else {
            assert(s.item_ok(a));
            match t.items[a].warehouse {
                Some(w2) => {
                    assert(s.items[a].warehouse == Some(w2));
                    lemma_warehouse_found(s, w2);
                    let b = s.warehouse_index(w2);
                    assert(t.warehouses[b].id == w2);
                    lemma_warehouse_index(t, w2, b);
                    if b == j {
                        lemma_contains_push(
                            s.warehouse_at(w_id).items,
                            s.items[a].id,
                            item_id,
                        );
                        assert(t.warehouse_at(w2).items.contains(t.items[a].id));
                    } else {
                        assert(t.warehouses[b] == s.warehouses[b]);
                        assert(t.warehouse_at(w2).items.contains(t.items[a].id));
                    }
                },
                None => {},
            }
        }
    }

    // Warehouse side: every listed id points back at its warehouse.
    assert forall|b: int, k: int|
        0 <= b < t.warehouses.len() && 0 <= k < t.warehouses[b].items.len() implies #[trigger] t.entry_ok(
        b,
        k,
    ) by {
        if b == j {
            if k < s.warehouses[j].items.len() {
                let id = s.warehouses[j].items[k];
                assert(s.entry_ok(j, k));
                assert(s.item_at(id).warehouse == Some(w_id));
                lemma_item_found(s, id);
                let a = s.item_index(id);
                assert(a != i);
                assert(t.items[a].id == id);
                lemma_item_index(t, id, a);
                assert(t.warehouses[b].items[k] == id);
                assert(t.item_at(id).warehouse == Some(t.warehouses[b].id));
            } else {
                assert(t.warehouses[j].items[k] == item_id);
                assert(t.items[i].id == item_id);
                lemma_item_index(t, item_id, i);
                assert(t.item_at(item_id).warehouse == Some(w_id));
            }
        } else {
            let id = s.warehouses[b].items[k];
            assert(s.entry_ok(b, k));
            lemma_item_found(s, id);
            let a = s.item_index(id);
            assert(s.item_at(id).warehouse == Some(s.warehouses[b].id));
            assert(a != i);
            assert(t.items[a].id == id);
            lemma_item_index(t, id, a);
            assert(t.warehouses[b] == s.warehouses[b]);
            assert(t.item_at(id).warehouse == Some(t.warehouses[b].id));
        }
    }
}

/// Adds item `item_id` to warehouse `w_id`, updating both sides of the
/// relationship, and returns the updated warehouse.
pub fn warehouse_add_item(store: &mut Store, w_id: i32, item_id: i32) -> (r: Result<
    Warehouse,
    Error,
>)
    requires
        old(store)@.wf(),
    ensures
        final(store)@.wf(),
        r is Ok <==> assign_allowed(old(store)@, w_id, item_id),
        r matches Ok(w) ==> final(store)@ == assign_step(old(store)@, w_id, item_id) && w@
            == assign_step(old(store)@, w_id, item_id).warehouse_at(w_id),
        r matches Err(e) ==> final(store)@ == old(store)@ && assign_error(
            old(store)@,
            w_id,
            item_id,
            e,
        ),
        old(store)@.consistent() && r is Ok ==> final(store)@.consistent(),
{
    let i = match store.find_item(item_id) {
        None => {
            return Err(
                Error { kind: ErrorKind::NotFound, msg: messages::build_item_missing(item_id) },
            );
        },
        Some(i) => i,
    };
    proof {
        lemma_item_index(store@, item_id, i as int);
    }
    let it = store.items[i];
    match it.warehouse {
        Some(cur) => {
            let msg = if cur == w_id {
                messages::build_already_this_warehouse(item_id, w_id)
            } else {
                messages::build_already_other_warehouse(item_id, w_id, cur)
            };
            return Err(Error { kind: ErrorKind::Conflict, msg });
        },
        None => {},
    }
    let j = match store.find_warehouse(w_id) {
        None => {
            return Err(
                Error { kind: ErrorKind::NotFound, msg: messages::build_warehouse_missing(w_id) },
            );
        },
        Some(j) => j,
    };
    proof {
        lemma_warehouse_index(store@, w_id, j as int);
    }
    if contains_id(&store.warehouses[j].items, item_id) {
        return Err(
            Error {
                kind: ErrorKind::Inconsistency,
                msg: messages::build_assign_inconsistent(item_id, w_id),
            },
        );
    }
    store.items[i] = InventoryItem { warehouse: Some(w_id), ..it };
    let mut wh = copy_warehouse(&store.warehouses[j]);
    wh.items.push(item_id);
    proof {
        lemma_whs_view_update(store.warehouses@, j as int, wh);
    }
    let ret = copy_warehouse(&wh);
    store.warehouses[j] = wh;
    proof {
        assert(store@ =~~= assign_step(old(store)@, w_id, item_id));
        lemma_assign_step_wf(old(store)@, w_id, item_id);
        lemma_warehouse_index(store@, w_id, j as int);
        if old(store)@.consistent() {
            lemma_assign_step_consistent(old(store)@, w_id, item_id);
        }
    }
    Ok(ret)
}


/// The position of `x` in the list `s` (meaningful when `s` contains `x`).
pub open spec fn list_pos(s: Seq<i32>, x: i32) -> int {
    choose|k: int| 0 <= k < s.len() && s[k] == x
}

/// In a duplicate-free list, a position holding `x` is the position that
/// `list_pos` picks.
pub proof fn lemma_list_pos(s: Seq<i32>, x: i32, p: int)
    requires
        dup_free(s),
        0 <= p < s.len(),
        s[p] == x,
    ensures
        s.contains(x),
        list_pos(s, x) == p,
{
    assert(s.contains(x));
    let c = list_pos(s, x);
    if c != p {
        if c < p {
            assert(s[c] != s[p]);
        } else {
            assert(s[p] != s[c]);
        }
    }
}

/// A `contains` witness turned into facts about `list_pos`.
pub proof fn lemma_list_pos_found(s: Seq<i32>, x: i32)
    requires
        s.contains(x),
    ensures
        0 <= list_pos(s, x) < s.len(),
        s[list_pos(s, x)] == x,
{
}

/// Removing an element keeps a list duplicate-free.
pub proof fn lemma_remove_dup_free(s: Seq<i32>, p: int)
    requires
        dup_free(s),
        0 <= p < s.len(),
    ensures
        dup_free(s.remove(p)),
{
    let t = s.remove(p);
    assert forall|a: int, b: int| 0 <= a < b < t.len() implies t[a] != t[b] by {
        let a0: int = if a < p {
            a
        } else {
            a + 1
        };
        let b0: int = if b < p {
            b
        } else {
            b + 1
        };
        assert(t[a] == s[a0]);
        assert(t[b] == s[b0]);
        assert(s[a0] != s[b0]);
    }
}

/// An element other than the one removed is still contained.
pub proof fn lemma_remove_contains_other(s: Seq<i32>, p: int, x: i32)
    requires
        0 <= p < s.len(),
        s.contains(x),
        s[p] != x,
    ensures
        s.remove(p).contains(x),
{
    let k = choose|k: int| 0 <= k < s.len() && s[k] == x;
    if k < p {
        assert(s.remove(p)[k] == x);
    } else {
        assert(s.remove(p)[k - 1] == x);
    }
}

/// Removing the only occurrence of an element removes it for good.
pub proof fn lemma_remove_not_contains(s: Seq<i32>, p: int)
    requires
        dup_free(s),
        0 <= p < s.len(),
    ensures
        !s.remove(p).contains(s[p]),
{
    let x = s[p];
    let t = s.remove(p);
    assert forall|k: int| 0 <= k < t.len() implies t[k] != x by {
        let k0: int = if k < p {
            k
        } else {
            k + 1
        };
        assert(t[k] == s[k0]);
        if k0 < p {
            assert(s[k0] != s[p]);
        } else {
            assert(s[p] != s[k0]);
        }
    }
}

/// When removing `item_id` from warehouse `w_id` succeeds: the item exists,
/// it names exactly this warehouse, the warehouse exists, and its list names
/// the item.
pub open spec fn unassign_allowed(s: StoreView, w_id: i32, item_id: i32) -> bool {
    &&& s.has_item(item_id)
    &&& s.item_at(item_id).warehouse == Some(w_id)
    &&& s.has_warehouse(w_id)
    &&& s.warehouse_at(w_id).items.contains(item_id)
}

/// The store after a successful unassign: the item points at no warehouse,
/// and the warehouse's list loses the item id at its position.
pub open spec fn unassign_step(s: StoreView, w_id: i32, item_id: i32) -> StoreView {
    StoreView {
        items: s.items.update(
            s.item_index(item_id),
            (InventoryItem { warehouse: None, ..s.item_at(item_id) }),
        ),
        warehouses: s.warehouses.update(
            s.warehouse_index(w_id),
            (WarehouseView {
                items: s.warehouse_at(w_id).items.remove(
                    list_pos(s.warehouse_at(w_id).items, item_id),
                ),
                ..s.warehouse_at(w_id)
            }),
        ),
    }
}

/// The error a failed unassign reports, by the first rule violated: a
/// missing item, an unassigned item, an item held elsewhere, a missing
/// warehouse, or a warehouse list that does not name the item.
pub open spec fn unassign_error(s: StoreView, w_id: i32, item_id: i32, e: Error) -> bool {
    if !s.has_item(item_id) {
        e.kind == ErrorKind::NotFound && e.msg@ == messages::msg_item_missing(item_id as int)
    } else {
        match s.item_at(item_id).warehouse {
            None => e.kind == ErrorKind::Conflict && e.msg@ == messages::msg_not_assigned(
                item_id as int,
            ),
            Some(cur) => if cur != w_id {
                e.kind == ErrorKind::Conflict && e.msg@ == messages::msg_belongs_elsewhere(
                    item_id as int,
                    w_id as int,
                    cur as int,
                )
            } else if !s.has_warehouse(w_id) {
                e.kind == ErrorKind::NotFound && e.msg@ == messages::msg_warehouse_missing(
                    w_id as int,
                )
            } else {
                e.kind == ErrorKind::Inconsistency && e.msg@
                    == messages::msg_unassign_inconsistent(item_id as int, w_id as int)
            },
        }
    }
}

/// A successful unassign preserves well-formedness.
pub proof fn lemma_unassign_step_wf(s: StoreView, w_id: i32, item_id: i32)
    requires
        s.wf(),
        unassign_allowed(s, w_id, item_id),
    ensures
        unassign_step(s, w_id, item_id).wf(),
{
    let i = s.item_index(item_id);
    let j = s.warehouse_index(w_id);
    lemma_item_found(s, item_id);
    lemma_warehouse_found(s, w_id);
    let lst = s.warehouse_at(w_id).items;
    lemma_list_pos_found(lst, item_id);
    let t = unassign_step(s, w_id, item_id);
    lemma_items_update_unique(
        s,
        i,
        (InventoryItem { warehouse: None, ..s.item_at(item_id) }),
    );
    lemma_warehouses_update_unique(
        s,
        j,
        (WarehouseView { items: lst.remove(list_pos(lst, item_id)), ..s.warehouse_at(w_id) }),
    );
    lemma_remove_dup_free(lst, list_pos(lst, item_id));
    assert forall|b: int| 0 <= b < t.warehouses.len() implies dup_free(
        #[trigger] t.warehouses[b].items,
    ) by {
        if b != j {
            assert(dup_free(s.warehouses[b].items));
        }
    }
}

/// A successful unassign preserves the consistency invariant.
pub proof fn lemma_unassign_step_consistent(s: StoreView, w_id: i32, item_id: i32)
    requires
        s.wf(),
        s.consistent(),
        unassign_allowed(s, w_id, item_id),
    ensures
        unassign_step(s, w_id, item_id).consistent(),
{
    let i = s.item_index(item_id);
    let j = s.warehouse_index(w_id);
    lemma_item_found(s, item_id);
    lemma_warehouse_found(s, w_id);
    let lst = s.warehouse_at(w_id).items;
    let p = list_pos(lst, item_id);
    lemma_list_pos_found(lst, item_id);
    let t = unassign_step(s, w_id, item_id);
    lemma_unassign_step_wf(s, w_id, item_id);

    // Item side: every still-assigned item is still backed by its warehouse.
    assert forall|a: int| 0 <= a < t.items.len() implies #[trigger] t.item_ok(a) by {
        if a != i {
            assert(s.item_ok(a));
            match t.items[a].warehouse {
                Some(w2) => {
                    assert(s.items[a].warehouse == Some(w2));
                    lemma_warehouse_found(s, w2);
                    let b = s.warehouse_index(w2);
                    assert(t.warehouses[b].id == w2);
                    lemma_warehouse_index(t, w2, b);
                    if b == j {
                        assert(s.items[a].id != s.items[i].id);
                        lemma_remove_contains_other(lst, p, s.items[a].id);
                        assert(t.warehouse_at(w2).items.contains(t.items[a].id));
                    } else {
                        assert(t.warehouses[b] == s.warehouses[b]);
                        assert(t.warehouse_at(w2).items.contains(t.items[a].id));
                    }
                },
                None => {},
            }
        }
    }

    // Warehouse side: every listed id still points back at its warehouse.
    assert forall|b: int, k: int|
        0 <= b < t.warehouses.len() && 0 <= k < t.warehouses[b].items.len() implies #[trigger] t.entry_ok(
        b,
        k,
    ) by {
        if b == j {
            let k0: int = if k < p {
                k
            } else {
                k + 1
            };
            let id = lst[k0];
            assert(t.warehouses[j].items[k] == id);
            assert(s.entry_ok(j, k0));
            assert(s.item_at(id).warehouse == Some(w_id));
            assert(id != item_id) by {
                if k0 < p {
                    assert(lst[k0] != lst[p]);
                } else {
                    assert(lst[p] != lst[k0]);
                }
            }
            lemma_item_found(s, id);
            let a = s.item_index(id);
            assert(a != i);
            assert(t.items[a].id == id);
            lemma_item_index(t, id, a);
            assert(t.item_at(id).warehouse == Some(t.warehouses[b].id));
        } else {
            let id = s.warehouses[b].items[k];
            assert(s.entry_ok(b, k));
            assert(s.item_at(id).warehouse == Some(s.warehouses[b].id));
            assert(s.warehouses[b].id != w_id);
            assert(id != item_id);
            lemma_item_found(s, id);
            let a = s.item_index(id);
            assert(a != i);
            assert(t.items[a].id == id);
            lemma_item_index(t, id, a);
            assert(t.warehouses[b] == s.warehouses[b]);
            assert(t.item_at(id).warehouse == Some(t.warehouses[b].id));
        }
    }
}

/// Removes item `item_id` from warehouse `w_id`, updating both sides of the
/// relationship, and returns the updated warehouse.
pub fn warehouse_remove_item(store: &mut Store, w_id: i32, item_id: i32) -> (r: Result<
    Warehouse,
    Error,
>)
    requires
        old(store)@.wf(),
    ensures
        final(store)@.wf(),
        r is Ok <==> unassign_allowed(old(store)@, w_id, item_id),
        r matches Ok(w) ==> final(store)@ == unassign_step(old(store)@, w_id, item_id) && w@
            == unassign_step(old(store)@, w_id, item_id).warehouse_at(w_id),
        r matches Err(e) ==> final(store)@ == old(store)@ && unassign_error(
            old(store)@,
            w_id,
            item_id,
            e,
        ),
        old(store)@.consistent() && r is Ok ==> final(store)@.consistent(),
{
    let i = match store.find_item(item_id) {
        None => {
            return Err(
                Error { kind: ErrorKind::NotFound, msg: messages::build_item_missing(item_id) },
            );
        },
        Some(i) => i,
    };
    proof {
        lemma_item_index(store@, item_id, i as int);
    }
    let it = store.items[i];
    match it.warehouse {
        None => {
            return Err(
                Error { kind: ErrorKind::Conflict, msg: messages::build_not_assigned(item_id) },
            );
        },
        Some(cur) => {
            if cur != w_id {
                return Err(
                    Error {
                        kind: ErrorKind::Conflict,
                        msg: messages::build_belongs_elsewhere(item_id, w_id, cur),
                    },
                );
            }
        },
    }
    let j = match store.find_warehouse(w_id) {
        None => {
            return Err(
                Error { kind: ErrorKind::NotFound, msg: messages::build_warehouse_missing(w_id) },
            );
        },
        Some(j) => j,
    };
    proof {
        lemma_warehouse_index(store@, w_id, j as int);
    }
    let p = match position_of(&store.warehouses[j].items, item_id) {
        None => {
            return Err(
                Error {
                    kind: ErrorKind::Inconsistency,
                    msg: messages::build_unassign_inconsistent(item_id, w_id),
                },
            );
        },
        Some(p) => p,
    };
    proof {
        lemma_list_pos(store@.warehouse_at(w_id).items, item_id, p as int);
    }
    store.items[i] = InventoryItem { warehouse: None, ..it };
    let mut wh = copy_warehouse(&store.warehouses[j]);
    wh.items.remove(p);
    proof {
        lemma_whs_view_update(store.warehouses@, j as int, wh);
    }
    let ret = copy_warehouse(&wh);
    store.warehouses[j] = wh;
    proof {
        assert(store@ =~~= unassign_step(old(store)@, w_id, item_id));
        lemma_unassign_step_wf(old(store)@, w_id, item_id);
        lemma_warehouse_index(store@, w_id, j as int);
        if old(store)@.consistent() {
            lemma_unassign_step_consistent(old(store)@, w_id, item_id);
        }
    }
    Ok(ret)
}


/// Removing an unassigned item that no warehouse lists preserves
/// well-formedness and consistency.
pub proof fn lemma_remove_item_consistent(s: StoreView, item_id: i32)
    requires
        s.wf(),
        s.consistent(),
        s.has_item(item_id),
        s.item_at(item_id).warehouse is None,
    ensures
        (StoreView { items: s.items.remove(s.item_index(item_id)), ..s }).wf(),
        (StoreView { items: s.items.remove(s.item_index(item_id)), ..s }).consistent(),
{
    let i = s.item_index(item_id);
    lemma_item_found(s, item_id);
    lemma_items_remove_unique(s, i);
    let t = StoreView { items: s.items.remove(i), ..s };
    assert forall|a: int| 0 <= a < t.items.len() implies #[trigger] t.item_ok(a) by {
        let a0: int = if a < i {
            a
        } else {
            a + 1
        };
        assert(t.items[a] == s.items[a0]);
        assert(s.item_ok(a0));
        match t.items[a].warehouse {
            Some(w2) => {
                assert(s.items[a0].warehouse == Some(w2));
                lemma_warehouse_found(s, w2);
                let b = s.warehouse_index(w2);
                assert(t.warehouses[b].id == w2);
                lemma_warehouse_index(t, w2, b);
                assert(t.warehouse_at(w2).items.contains(t.items[a].id));
            },
            None => {},
        }
    }
    assert forall|b: int, k: int|
        0 <= b < t.warehouses.len() && 0 <= k < t.warehouses[b].items.len() implies #[trigger] t.entry_ok(
        b,
        k,
    ) by {
        let id = s.warehouses[b].items[k];
        assert(s.entry_ok(b, k));
        assert(s.item_at(id).warehouse == Some(s.warehouses[b].id));
        assert(id != item_id);
        lemma_item_found(s, id);
        let a0 = s.item_index(id);
        assert(a0 != i);
        let a: int = if a0 < i {
            a0
        } else {
            a0 - 1
        };
        assert(t.items[a] == s.items[a0]);
        lemma_item_index(t, id, a);
        assert(t.item_at(id).warehouse == Some(t.warehouses[b].id));
    }
}

/// When deleting `item_id` succeeds: the item exists, and if it is assigned,
/// the cascading unassign from its warehouse succeeds.
pub open spec fn delete_item_allowed(s: StoreView, item_id: i32) -> bool {
    &&& s.has_item(item_id)
    &&& (s.item_at(item_id).warehouse matches Some(w) ==> unassign_allowed(s, w, item_id))
}

/// The store after a successful delete: the item is first unassigned from
/// its warehouse, if any, then its record is removed.
pub open spec fn delete_item_step(s: StoreView, item_id: i32) -> StoreView {
    let s1 = match s.item_at(item_id).warehouse {
        Some(w) => unassign_step(s, w, item_id),
        None => s,
    };
    StoreView { items: s1.items.remove(s1.item_index(item_id)), ..s1 }
}

/// The error a failed delete reports: a missing item, or whatever the
/// cascading unassign reported.
pub open spec fn delete_item_error(s: StoreView, item_id: i32, e: Error) -> bool {
    if !s.has_item(item_id) {
        e.kind == ErrorKind::NotFound && e.msg@ == messages::msg_item_missing(item_id as int)
    } else {
        match s.item_at(item_id).warehouse {
            Some(w) => unassign_error(s, w, item_id, e),
            None => false,
        }
    }
}

/// Deletes item `item_id`, first unassigning it from its warehouse if it is
/// assigned; a cascade failure aborts the delete. Returns the pre-delete
/// record, so the caller still sees which warehouse the item belonged to.
pub fn delete_item(store: &mut Store, item_id: i32) -> (r: Result<InventoryItem, Error>)
    requires
        old(store)@.wf(),
    ensures
        final(store)@.wf(),
        r is Ok <==> delete_item_allowed(old(store)@, item_id),
        r matches Ok(it) ==> it == old(store)@.item_at(item_id) && final(store)@
            == delete_item_step(old(store)@, item_id),
        r matches Err(e) ==> final(store)@ == old(store)@ && delete_item_error(
            old(store)@,
            item_id,
            e,
        ),
        old(store)@.consistent() && r is Ok ==> final(store)@.consistent(),
{
    let i = match store.find_item(item_id) {
        None => {
            return Err(
                Error { kind: ErrorKind::NotFound, msg: messages::build_item_missing(item_id) },
            );
        },
        Some(i) => i,
    };
    proof {
        lemma_item_index(store@, item_id, i as int);
    }
    let it = store.items[i];
    match it.warehouse {
        Some(w) => {
            match warehouse_remove_item(store, w, item_id) {
                Err(e) => {
                    return Err(e);
                },
                Ok(_) => {},
            }
        },
        None => {},
    }
    let ghost s1 = store@;
    proof {
        match old(store)@.item_at(item_id).warehouse {
            Some(w) => {
                lemma_unassign_step_wf(old(store)@, w, item_id);
                assert(s1.items[i as int].id == item_id);
            },
            None => {},
        }
        assert(s1.has_item(item_id));
    }
    let i2 = match store.find_item(item_id) {
        None => unreached(),
        Some(i2) => i2,
    };
    proof {
        lemma_item_index(s1, item_id, i2 as int);
        lemma_items_remove_unique(s1, i2 as int);
        if old(store)@.consistent() {
            match old(store)@.item_at(item_id).warehouse {
                Some(w) => {
                    lemma_unassign_step_consistent(old(store)@, w, item_id);
                },
                None => {},
            }
            assert(s1.item_at(item_id).warehouse is None);
            lemma_remove_item_consistent(s1, item_id);
        }
    }
    store.items.remove(i2);
    proof {
        assert(store@ =~~= delete_item_step(old(store)@, item_id));
    }
    Ok(it)
}


/// Pushing a distinct element does not change membership of others.
pub proof fn lemma_push_contains_iff(s: Seq<i32>, x: i32, y: i32)
    requires
        x != y,
    ensures
        s.push(y).contains(x) == s.contains(x),
{
    if s.contains(x) {
        lemma_contains_push(s, x, y);
    }
    if s.push(y).contains(x) {
        let k = choose|k: int| 0 <= k < s.push(y).len() && s.push(y)[k] == x;
        assert(k < s.len());
        assert(s[k] == x);
    }
}

/// When creating `item` succeeds: its id is fresh, and if it names a
/// warehouse, that warehouse exists and does not already list the id.
pub open spec fn create_item_allowed(s: StoreView, item: InventoryItem) -> bool {
    &&& !s.has_item(item.id)
    &&& (item.warehouse matches Some(w) ==> s.has_warehouse(w) && !s.warehouse_at(
        w,
    ).items.contains(item.id))
}

/// The store after a successful create: the item record is appended, and the
/// warehouse it names, if any, gains the id at the end of its list, so both
/// sides of the relationship stay in step.
pub open spec fn create_item_step(s: StoreView, item: InventoryItem) -> StoreView {
    match item.warehouse {
        None => StoreView { items: s.items.push(item), ..s },
        Some(w) => StoreView {
            items: s.items.push(item),
            warehouses: s.warehouses.update(
                s.warehouse_index(w),
                (WarehouseView { items: s.warehouse_at(w).items.push(item.id), ..s.warehouse_at(
                    w,
                ) }),
            ),
        },
    }
}

/// The error a failed create reports: the named warehouse is missing, the id
/// is taken, or the named warehouse already lists the fresh id.
pub open spec fn create_item_error(s: StoreView, item: InventoryItem, e: Error) -> bool {
    match item.warehouse {
        Some(w) => if !s.has_warehouse(w) {
            e.kind == ErrorKind::NotFound && e.msg@ == messages::msg_create_item_warehouse_missing(
                w as int,
            )
        } else if s.has_item(item.id) {
            e.kind == ErrorKind::Conflict && e.msg@ == messages::msg_item_exists(item.id as int)
        } else {
            e.kind == ErrorKind::Inconsistency && e.msg@ == messages::msg_assign_inconsistent(
                item.id as int,
                w as int,
            )
        },
        None => e.kind == ErrorKind::Conflict && e.msg@ == messages::msg_item_exists(
            item.id as int,
        ),
    }
}

/// A successful create preserves well-formedness.
pub proof fn lemma_create_item_step_wf(s: StoreView, item: InventoryItem)
    requires
        s.wf(),
        create_item_allowed(s, item),
    ensures
        create_item_step(s, item).wf(),
{
    let t = create_item_step(s, item);
    assert forall|a: int, b: int| 0 <= a < b < t.items.len() implies t.items[a].id
        != t.items[b].id by {
        if b < s.items.len() {
            assert(s.items[a].id != s.items[b].id);
        } else {
            assert(t.items[a] == s.items[a]);
            if s.items[a].id == item.id {
                assert(s.has_item(item.id));
            }
        }
    }
    match item.warehouse {
        Some(w) => {
            lemma_warehouse_found(s, w);
            let j = s.warehouse_index(w);
            lemma_warehouses_update_unique(
                s,
                j,
                (WarehouseView { items: s.warehouse_at(w).items.push(item.id), ..s.warehouse_at(
                    w,
                ) }),
            );
            lemma_push_dup_free(s.warehouse_at(w).items, item.id);
            assert forall|b: int| 0 <= b < t.warehouses.len() implies dup_free(
                #[trigger] t.warehouses[b].items,
            ) by {
                if b != j {
                    assert(dup_free(s.warehouses[b].items));
                }
            }
        },
        None => {
            assert forall|b: int| 0 <= b < t.warehouses.len() implies dup_free(
                #[trigger] t.warehouses[b].items,
            ) by {
                assert(dup_free(s.warehouses[b].items));
            }
        },
    }
}

/// A successful create preserves the consistency invariant.
pub proof fn lemma_create_item_step_consistent(s: StoreView, item: InventoryItem)
    requires
        s.wf(),
        s.consistent(),
        create_item_allowed(s, item),
    ensures
        create_item_step(s, item).consistent(),
{
    let t = create_item_step(s, item);
    lemma_create_item_step_wf(s, item);
    let n = s.items.len() as int;

    assert forall|a: int| 0 <= a < t.items.len() implies #[trigger] t.item_ok(a) by {
        if a == n {
            match item.warehouse {
                Some(w) => {
                    lemma_warehouse_found(s, w);
                    let j = s.warehouse_index(w);
                    assert(t.warehouses[j].id == w);
                    lemma_warehouse_index(t, w, j);
                    lemma_push_contains_last(s.warehouse_at(w).items, item.id);
                    assert(t.warehouse_at(w).items.contains(item.id));
                },
                None => {},
            }
        } else {
            assert(t.items[a] == s.items[a]);
            assert(s.item_ok(a));
            match t.items[a].warehouse {
                Some(w2) => {
                    lemma_warehouse_found(s, w2);
                    let b = s.warehouse_index(w2);
                    assert(t.warehouses[b].id == w2);
                    lemma_warehouse_index(t, w2, b);
                    match item.warehouse {
                        Some(w) => {
                            if b == s.warehouse_index(w) {
                                lemma_contains_push(
                                    s.warehouse_at(w).items,
                                    s.items[a].id,
                                    item.id,
                                );
                            }
                        },
                        None => {},
                    }
                    assert(t.warehouse_at(w2).items.contains(t.items[a].id));
                },
                None => {},
            }
        }
    }

    assert forall|b: int, k: int|
        0 <= b < t.warehouses.len() && 0 <= k < t.warehouses[b].items.len() implies #[trigger] t.entry_ok(
        b,
        k,
    ) by {
        match item.warehouse {
            Some(w) => {
                lemma_warehouse_found(s, w);
                let j = s.warehouse_index(w);
                if b == j && k == s.warehouses[j].items.len() {
                    assert(t.warehouses[j].items[k] == item.id);
                    assert(t.items[n].id == item.id);
                    lemma_item_index(t, item.id, n);
                    assert(t.item_at(item.id).warehouse == Some(w));
                } else {
                    let id = s.warehouses[b].items[k];
                    assert(t.warehouses[b].items[k] == id);
                    assert(s.entry_ok(b, k));
                    lemma_item_found(s, id);
                    let a = s.item_index(id);
                    assert(id != item.id);
                    assert(t.items[a] == s.items[a]);
                    lemma_item_index(t, id, a);
                    assert(t.item_at(id).warehouse == Some(t.warehouses[b].id));
                }
            },
            None => {
                let id = s.warehouses[b].items[k];
                assert(s.entry_ok(b, k));
                lemma_item_found(s, id);
                let a = s.item_index(id);
                assert(id != item.id);
                assert(t.items[a] == s.items[a]);
                lemma_item_index(t, id, a);
                assert(t.item_at(id).warehouse == Some(t.warehouses[b].id));
            },
        }
    }
}

/// Creates an item record. When the item names a warehouse, that warehouse
/// must already exist, and the new id is registered in its list as well, so
/// that the relationship invariant also holds for items born assigned.
pub fn create_item(store: &mut Store, item: &InventoryItem) -> (r: Result<InventoryItem, Error>)
    requires
        old(store)@.wf(),
    ensures
        final(store)@.wf(),
        r is Ok <==> create_item_allowed(old(store)@, *item),
        r matches Ok(it) ==> it == *item && final(store)@ == create_item_step(old(store)@, *item),
        r matches Err(e) ==> final(store)@ == old(store)@ && create_item_error(
            old(store)@,
            *item,
            e,
        ),
        old(store)@.consistent() && r is Ok ==> final(store)@.consistent(),
{
    match item.warehouse {
        Some(w) => {
            let j = match store.find_warehouse(w) {
                None => {
                    return Err(
                        Error {
                            kind: ErrorKind::NotFound,
                            msg: messages::build_create_item_warehouse_missing(w),
                        },
                    );
                },
                Some(j) => j,
            };
            proof {
                lemma_warehouse_index(store@, w, j as int);
            }
            match store.find_item(item.id) {
                Some(_) => {
                    return Err(
                        Error {
                            kind: ErrorKind::Conflict,
                            msg: messages::build_item_exists(item.id),
                        },
                    );
                },
                None => {},
            }
            if contains_id(&store.warehouses[j].items, item.id) {
                return Err(
                    Error {
                        kind: ErrorKind::Inconsistency,
                        msg: messages::build_assign_inconsistent(item.id, w),
                    },
                );
            }
            store.items.push(*item);
            let mut wh = copy_warehouse(&store.warehouses[j]);
            wh.items.push(item.id);
            proof {
                lemma_whs_view_update(store.warehouses@, j as int, wh);
            }
            store.warehouses[j] = wh;
            proof {
                assert(store@ =~~= create_item_step(old(store)@, *item));
                lemma_create_item_step_wf(old(store)@, *item);
                if old(store)@.consistent() {
                    lemma_create_item_step_consistent(old(store)@, *item);
                }
            }
            Ok(*item)
        },
        None => {
            match store.find_item(item.id) {
                Some(_) => {
                    return Err(
                        Error {
                            kind: ErrorKind::Conflict,
                            msg: messages::build_item_exists(item.id),
                        },
                    );
                },
                None => {},
            }
            store.items.push(*item);
            proof {
                assert(store@ =~~= create_item_step(old(store)@, *item));
                lemma_create_item_step_wf(old(store)@, *item);
                if old(store)@.consistent() {
                    lemma_create_item_step_consistent(old(store)@, *item);
                }
            }
            Ok(*item)
        },
    }
}


/// Whether two optional warehouse references are the same.
fn opt_eq(a: Option<i32>, b: Option<i32>) -> (r: bool)
    ensures
        r == (a == b),
{
    match (a, b) {
        (None, None) => true,
        (Some(x), Some(y)) => x == y,
        _ => false,
    }
}

/// When a generic update of `item` succeeds: the record exists and the
/// update does not try to change the `warehouse` field.
pub open spec fn update_item_allowed(s: StoreView, item: InventoryItem) -> bool {
    &&& s.has_item(item.id)
    &&& s.item_at(item.id).warehouse == item.warehouse
}

/// The store after a successful update: the record is replaced wholesale;
/// nothing else moves.
pub open spec fn update_item_step(s: StoreView, item: InventoryItem) -> StoreView {
    StoreView { items: s.items.update(s.item_index(item.id), item), ..s }
}

/// The error a failed update reports: a missing record, or an attempt to
/// change the `warehouse` field through this operation.
pub open spec fn update_item_error(s: StoreView, item: InventoryItem, e: Error) -> bool {
    if !s.has_item(item.id) {
        e.kind == ErrorKind::NotFound && e.msg@ == messages::msg_update_item_missing(
            item.id as int,
        )
    } else {
        e.kind == ErrorKind::Conflict && e.msg@ == messages::msg_update_item_warehouse()
    }
}

/// A successful update preserves well-formedness and consistency: the
/// `warehouse` field is unchanged, so every link is untouched.
pub proof fn lemma_update_item_step_consistent(s: StoreView, item: InventoryItem)
    requires
        s.wf(),
        update_item_allowed(s, item),
    ensures
        update_item_step(s, item).wf(),
        s.consistent() ==> update_item_step(s, item).consistent(),
{
    lemma_item_found(s, item.id);
    let i = s.item_index(item.id);
    lemma_items_update_unique(s, i, item);
    let t = update_item_step(s, item);
    assert forall|b: int| 0 <= b < t.warehouses.len() implies dup_free(
        #[trigger] t.warehouses[b].items,
    ) by {
        assert(dup_free(s.warehouses[b].items));
    }
    if s.consistent() {
        assert forall|a: int| 0 <= a < t.items.len() implies #[trigger] t.item_ok(a) by {
            assert(s.item_ok(a));
            assert(t.items[a].id == s.items[a].id);
            assert(t.items[a].warehouse == s.items[a].warehouse);
            match t.items[a].warehouse {
                Some(w2) => {
                    lemma_warehouse_found(s, w2);
                    let b = s.warehouse_index(w2);
                    assert(t.warehouses[b].id == w2);
                    lemma_warehouse_index(t, w2, b);
                    assert(t.warehouse_at(w2).items.contains(t.items[a].id));
                },
                None => {},
            }
        }
        assert forall|b: int, k: int|
            0 <= b < t.warehouses.len() && 0 <= k < t.warehouses[b].items.len() implies #[trigger] t.entry_ok(
            b,
            k,
        ) by {
            let id = s.warehouses[b].items[k];
            assert(s.entry_ok(b, k));
            lemma_item_found(s, id);
            let a = s.item_index(id);
            assert(t.items[a].id == id);
            lemma_item_index(t, id, a);
            assert(t.item_at(id).warehouse == Some(t.warehouses[b].id));
        }
    }
}

/// Replaces the non-relationship fields of an item record. The `warehouse`
/// field is not updatable here: a changed value is refused.
pub fn update_item(store: &mut Store, item: &InventoryItem) -> (r: Result<InventoryItem, Error>)
    requires
        old(store)@.wf(),
    ensures
        final(store)@.wf(),
        r is Ok <==> update_item_allowed(old(store)@, *item),
        r matches Ok(it) ==> it == *item && final(store)@ == update_item_step(old(store)@, *item),
        r matches Err(e) ==> final(store)@ == old(store)@ && update_item_error(
            old(store)@,
            *item,
            e,
        ),
        old(store)@.consistent() && r is Ok ==> final(store)@.consistent(),
{
    let i = match store.find_item(item.id) {
        None => {
            return Err(
                Error {
                    kind: ErrorKind::NotFound,
                    msg: messages::build_update_item_missing(item.id),
                },
            );
        },
        Some(i) => i,
    };
    proof {
        lemma_item_index(store@, item.id, i as int);
    }
    if !opt_eq(item.warehouse, store.items[i].warehouse) {
        return Err(
            Error { kind: ErrorKind::Conflict, msg: messages::build_update_item_warehouse() },
        );
    }
    proof {
        lemma_update_item_step_consistent(store@, *item);
    }
    store.items[i] = *item;
    proof {
        assert(store@ =~~= update_item_step(old(store)@, *item));
    }
    Ok(*item)
}

/// A generic warehouse update is unsupported by design: membership moves
/// only through the add/remove operations. Always fails, whatever the input.
pub fn update_warehouse(_store: &Store, _whouse: &Warehouse) -> (r: Result<Warehouse, Error>)
    ensures
        r matches Err(e) && e.kind == ErrorKind::NotImplemented && e.msg@
            == messages::msg_update_warehouse_unsupported(),
{
    Err(
        Error {
            kind: ErrorKind::NotImplemented,
            msg: messages::build_update_warehouse_unsupported(),
        },
    )
}

/// The member items of warehouse `w_id`, in store order, at most `limit` of
/// them.
pub fn warehouse_get_items(store: &Store, w_id: i32, limit: i64) -> (r: Result<
    Vec<InventoryItem>,
    Error,
>)
    requires
        store@.wf(),
    ensures
        store@.has_warehouse(w_id) ==> (r matches Ok(v) && v@ == filter_items_limited(
            store@.items,
            store@.warehouse_at(w_id).items,
            limit as int,
        )),
        !store@.has_warehouse(w_id) ==> (r matches Err(e) && e.kind == ErrorKind::NotFound
            && e.msg@ == messages::msg_warehouse_items_missing(w_id as int)),
{
    let j = match store.find_warehouse(w_id) {
        None => {
            return Err(
                Error {
                    kind: ErrorKind::NotFound,
                    msg: messages::build_warehouse_items_missing(w_id),
                },
            );
        },
        Some(j) => j,
    };
    proof {
        lemma_warehouse_index(store@, w_id, j as int);
    }
    Ok(store.get_items_by_id(limit, &store.warehouses[j].items))
}

/// The round-trip law: assigning an item to a warehouse and then removing it
/// again restores the store exactly, the warehouse's items list included.
pub proof fn lemma_assign_then_unassign(s: StoreView, w_id: i32, item_id: i32)
    requires
        s.wf(),
        assign_allowed(s, w_id, item_id),
    ensures
        unassign_allowed(assign_step(s, w_id, item_id), w_id, item_id),
        unassign_step(assign_step(s, w_id, item_id), w_id, item_id) == s,
{
    let i = s.item_index(item_id);
    let j = s.warehouse_index(w_id);
    lemma_item_found(s, item_id);
    lemma_warehouse_found(s, w_id);
    let lst = s.warehouse_at(w_id).items;
    let t = assign_step(s, w_id, item_id);
    lemma_assign_step_wf(s, w_id, item_id);
    assert(t.items[i].id == item_id);
    lemma_item_index(t, item_id, i);
    assert(t.warehouses[j].id == w_id);
    lemma_warehouse_index(t, w_id, j);
    lemma_push_contains_last(lst, item_id);
    assert(unassign_allowed(t, w_id, item_id));

    let pushed = lst.push(item_id);
    lemma_push_dup_free(lst, item_id);
    lemma_list_pos(pushed, item_id, lst.len() as int);
    assert(pushed.remove(lst.len() as int) =~= lst);

    let u = unassign_step(t, w_id, item_id);
    assert(u.items[i] == s.items[i]);
    assert(u.items =~= s.items);
    assert(u.warehouses[j] =~~= s.warehouses[j]);
    assert(u.warehouses =~~= s.warehouses);
    assert(u =~~= s);
}


/// `items` with the `warehouse` field of every listed item set to `tag`.
pub open spec fn mark_warehouse(
    items: Seq<InventoryItem>,
    ids: Seq<i32>,
    tag: Option<i32>,
) -> Seq<InventoryItem> {
    Seq::new(
        items.len(),
        |a: int|
            if ids.contains(items[a].id) {
                InventoryItem { warehouse: tag, ..items[a] }
            } else {
                items[a]
            },
    )
}

/// Marking one more listed item is one pointwise update, provided item ids
/// are unique and the id was not marked before.
pub proof fn lemma_mark_warehouse_extend(
    items: Seq<InventoryItem>,
    ids: Seq<i32>,
    k: int,
    tag: Option<i32>,
    idx: int,
)
    requires
        forall|a: int, b: int| 0 <= a < b < items.len() ==> items[a].id != items[b].id,
        0 <= k < ids.len(),
        0 <= idx < items.len(),
        items[idx].id == ids[k],
        !ids.take(k).contains(ids[k]),
    ensures
        mark_warehouse(items, ids.take(k + 1), tag) =~= mark_warehouse(
            items,
            ids.take(k),
            tag,
        ).update(idx, (InventoryItem { warehouse: tag, ..mark_warehouse(items, ids.take(k), tag)[idx] })),
{
    let pre = ids.take(k);
    let cur = ids.take(k + 1);
    assert(cur =~= pre.push(ids[k]));
    let lhs = mark_warehouse(items, cur, tag);
    let rhs = mark_warehouse(items, pre, tag).update(
        idx,
        (InventoryItem { warehouse: tag, ..mark_warehouse(items, pre, tag)[idx] }),
    );
    assert forall|a: int| 0 <= a < items.len() implies lhs[a] == rhs[a] by {
        if a == idx {
            assert(cur[k] == ids[k]);
            assert(cur.contains(items[idx].id));
            assert(!pre.contains(items[idx].id));
        } else {
            assert(items[a].id != ids[k]);
            lemma_push_contains_iff(pre, items[a].id, ids[k]);
            assert(cur.contains(items[a].id) == pre.contains(items[a].id));
        }
    }
}

/// A listed item exists and is unassigned: what `create_warehouse` demands
/// of every item in the proposed list.
pub open spec fn cw_item_ok(s: StoreView, id: i32) -> bool {
    s.has_item(id) && s.item_at(id).warehouse is None
}

/// When creating warehouse `w` succeeds: its id is fresh, its list repeats
/// no item, and every listed item exists and is unassigned.
pub open spec fn create_warehouse_allowed(s: StoreView, w: WarehouseView) -> bool {
    &&& !s.has_warehouse(w.id)
    &&& dup_free(w.items)
    &&& forall|k: int| 0 <= k < w.items.len() ==> cw_item_ok(s, #[trigger] w.items[k])
}

/// The store after a successful create: the warehouse record is appended
/// with its full list, and every listed item now points at it.
pub open spec fn create_warehouse_step(s: StoreView, w: WarehouseView) -> StoreView {
    StoreView {
        items: mark_warehouse(s.items, w.items, Some(w.id)),
        warehouses: s.warehouses.push(w),
    }
}

/// The error a failed create reports: a taken warehouse id; else, for the
/// first unacceptable listed item, a missing or an already-assigned item;
/// else, for the first repeated id in the list, the conflict the repeated
/// assignment would have raised.
pub open spec fn create_warehouse_error(s: StoreView, w: WarehouseView, e: Error) -> bool {
    if s.has_warehouse(w.id) {
        e.kind == ErrorKind::Conflict && e.msg@ == messages::msg_warehouse_exists(w.id as int)
    } else if exists|k: int| 0 <= k < w.items.len() && !cw_item_ok(s, #[trigger] w.items[k]) {
        exists|k: int|
            {
                &&& 0 <= k < w.items.len()
                &&& !cw_item_ok(s, #[trigger] w.items[k])
                &&& forall|m: int| 0 <= m < k ==> cw_item_ok(s, #[trigger] w.items[m])
                &&& if !s.has_item(w.items[k]) {
                    e.kind == ErrorKind::NotFound && e.msg@
                        == messages::msg_create_warehouse_item_missing(w.items[k] as int)
                } else {
                    e.kind == ErrorKind::Conflict && e.msg@
                        == messages::msg_create_warehouse_item_assigned(
                        w.items[k] as int,
                        s.item_at(w.items[k]).warehouse.unwrap() as int,
                    )
                }
            }
    } else {
        exists|k: int|
            {
                &&& 0 <= k < w.items.len()
                &&& w.items.take(k).contains(#[trigger] w.items[k])
                &&& dup_free(w.items.take(k))
                &&& e.kind == ErrorKind::Conflict
                &&& e.msg@ == messages::msg_already_this_warehouse(w.items[k] as int, w.id as int)
            }
    }
}

/// A successful create preserves well-formedness.
pub proof fn lemma_create_warehouse_step_wf(s: StoreView, w: WarehouseView)
    requires
        s.wf(),
        create_warehouse_allowed(s, w),
    ensures
        create_warehouse_step(s, w).wf(),
{
    let t = create_warehouse_step(s, w);
    assert forall|a: int, b: int| 0 <= a < b < t.items.len() implies t.items[a].id
        != t.items[b].id by {
        assert(t.items[a].id == s.items[a].id);
        assert(t.items[b].id == s.items[b].id);
        assert(s.items[a].id != s.items[b].id);
    }
    assert forall|a: int, b: int| 0 <= a < b < t.warehouses.len() implies t.warehouses[a].id
        != t.warehouses[b].id by {
        if b < s.warehouses.len() {
            assert(s.warehouses[a].id != s.warehouses[b].id);
        } else {
            assert(t.warehouses[a] == s.warehouses[a]);
            if s.warehouses[a].id == w.id {
                assert(s.has_warehouse(w.id));
            }
        }
    }
    assert forall|b: int| 0 <= b < t.warehouses.len() implies dup_free(
        #[trigger] t.warehouses[b].items,
    ) by {
        if b < s.warehouses.len() {
            assert(dup_free(s.warehouses[b].items));
        }
    }
}

/// A successful create preserves the consistency invariant.
pub proof fn lemma_create_warehouse_step_consistent(s: StoreView, w: WarehouseView)
    requires
        s.wf(),
        s.consistent(),
        create_warehouse_allowed(s, w),
    ensures
        create_warehouse_step(s, w).consistent(),
{
    let t = create_warehouse_step(s, w);
    lemma_create_warehouse_step_wf(s, w);
    let n = s.warehouses.len() as int;
    assert(t.warehouses[n] == w);

    assert forall|a: int| 0 <= a < t.items.len() implies #[trigger] t.item_ok(a) by {
        if w.items.contains(s.items[a].id) {
            assert(t.items[a].warehouse == Some(w.id));
            assert(t.items[a].id == s.items[a].id);
            lemma_warehouse_index(t, w.id, n);
            assert(t.warehouse_at(w.id).items.contains(t.items[a].id));
        } else {
            assert(t.items[a] == s.items[a]);
            assert(s.item_ok(a));
            match t.items[a].warehouse {
                Some(w2) => {
                    lemma_warehouse_found(s, w2);
                    let b = s.warehouse_index(w2);
                    assert(t.warehouses[b].id == w2);
                    lemma_warehouse_index(t, w2, b);
                    assert(t.warehouse_at(w2).items.contains(t.items[a].id));
                },
                None => {},
            }
        }
    }

    assert forall|b: int, k: int|
        0 <= b < t.warehouses.len() && 0 <= k < t.warehouses[b].items.len() implies #[trigger] t.entry_ok(
        b,
        k,
    ) by {
        if b == n {
            let id = w.items[k];
            assert(cw_item_ok(s, id));
            lemma_item_found(s, id);
            let a = s.item_index(id);
            assert(w.items.contains(id));
            assert(t.items[a].warehouse == Some(w.id));
            assert(t.items[a].id == id);
            lemma_item_index(t, id, a);
            assert(t.item_at(id).warehouse == Some(t.warehouses[b].id));
        } else {
            let id = s.warehouses[b].items[k];
            assert(s.entry_ok(b, k));
            assert(s.item_at(id).warehouse == Some(s.warehouses[b].id));
            lemma_item_found(s, id);
            let a = s.item_index(id);
            assert(!w.items.contains(id)) by {
                if w.items.contains(id) {
                    let kk = choose|kk: int| 0 <= kk < w.items.len() && w.items[kk] == id;
                    assert(cw_item_ok(s, w.items[kk]));
                }
            }
            assert(t.items[a] == s.items[a]);
            lemma_item_index(t, id, a);
            assert(t.warehouses[b] == s.warehouses[b]);
            assert(t.item_at(id).warehouse == Some(t.warehouses[b].id));
        }
    }
}

/// Creates a warehouse together with its initial item list: the id must be
/// fresh, the list must repeat no item, and every listed item must exist and
/// be unassigned. Validation happens in full before anything is stored, so a
/// failed call leaves no trace of the warehouse.
pub fn create_warehouse(store: &mut Store, whouse: &Warehouse) -> (r: Result<Warehouse, Error>)
    requires
        old(store)@.wf(),
    ensures
        final(store)@.wf(),
        r is Ok <==> create_warehouse_allowed(old(store)@, whouse@),
        r matches Ok(out) ==> out@ == whouse@ && final(store)@ == create_warehouse_step(
            old(store)@,
            whouse@,
        ),
        r matches Err(e) ==> final(store)@ == old(store)@ && create_warehouse_error(
            old(store)@,
            whouse@,
            e,
        ),
        old(store)@.consistent() && r is Ok ==> final(store)@.consistent(),
{
    match store.find_warehouse(whouse.id) {
        Some(_) => {
            return Err(
                Error {
                    kind: ErrorKind::Conflict,
                    msg: messages::build_warehouse_exists(whouse.id),
                },
            );
        },
        None => {},
    }
    let ghost s0 = old(store)@;
    let mut k: usize = 0;
    while k < whouse.items.len()
        invariant
            store@ == s0,
            s0.wf(),
            !s0.has_warehouse(whouse@.id),
            k <= whouse@.items.len(),
            forall|m: int| 0 <= m < k ==> cw_item_ok(s0, #[trigger] whouse@.items[m]),
        decreases whouse@.items.len() - k,
    {
        let id = whouse.items[k];
        match store.find_item(id) {
            None => {
                let e = Error {
                    kind: ErrorKind::NotFound,
                    msg: messages::build_create_warehouse_item_missing(id),
                };
                proof {
                    assert(whouse@.items[k as int] == id);
                    assert(!cw_item_ok(s0, whouse@.items[k as int]));
                    assert(create_warehouse_error(s0, whouse@, e));
                }
                return Err(e);
            },
            Some(idx) => {
                proof {
                    lemma_item_index(s0, id, idx as int);
                }
                match store.items[idx].warehouse {
                    Some(cur) => {
                        let e = Error {
                            kind: ErrorKind::Conflict,
                            msg: messages::build_create_warehouse_item_assigned(id, cur),
                        };
                        proof {
                            assert(whouse@.items[k as int] == id);
                            assert(s0.item_at(id).warehouse == Some(cur));
                            assert(!cw_item_ok(s0, whouse@.items[k as int]));
                            assert(create_warehouse_error(s0, whouse@, e));
                        }
                        return Err(e);
                    },
                    None => {},
                }
            },
        }
        k = k + 1;
    }
    let mut k2: usize = 0;
    while k2 < whouse.items.len()
        invariant
            store@ == s0,
            s0.wf(),
            !s0.has_warehouse(whouse@.id),
            k2 <= whouse@.items.len(),
            forall|m: int| 0 <= m < whouse@.items.len() ==> cw_item_ok(
                s0,
                #[trigger] whouse@.items[m],
            ),
            dup_free(whouse@.items.take(k2 as int)),
        decreases whouse@.items.len() - k2,
    {
        let mut m: usize = 0;
        while m < k2
            invariant
                store@ == s0,
                s0.wf(),
                !s0.has_warehouse(whouse@.id),
                m <= k2,
                k2 < whouse@.items.len(),
                forall|q: int| 0 <= q < whouse@.items.len() ==> cw_item_ok(
                    s0,
                    #[trigger] whouse@.items[q],
                ),
                dup_free(whouse@.items.take(k2 as int)),
                forall|p: int| 0 <= p < m ==> whouse@.items[p] != whouse@.items[k2 as int],
            decreases k2 - m,
        {
            if whouse.items[m] == whouse.items[k2] {
                let e = Error {
                    kind: ErrorKind::Conflict,
                    msg: messages::build_already_this_warehouse(whouse.items[k2], whouse.id),
                };
                proof {
                    assert(whouse@.items.take(k2 as int)[m as int] == whouse@.items[k2 as int]);
                    assert(whouse@.items.take(k2 as int).contains(whouse@.items[k2 as int]));
                    assert(forall|q: int|
                        0 <= q < whouse@.items.len() ==> cw_item_ok(
                            s0,
                            #[trigger] whouse@.items[q],
                        ));
                    assert(create_warehouse_error(s0, whouse@, e));
                }
                return Err(e);
            }
            m = m + 1;
        }
        proof {
            let ws = whouse@.items;
            let t = ws.take(k2 as int + 1);
            assert forall|a: int, b: int| 0 <= a < b < t.len() implies t[a] != t[b] by {
                if b < k2 {
                    assert(ws.take(k2 as int)[a] != ws.take(k2 as int)[b]);
                } else {
                    assert(t[a] == ws[a]);
                    assert(t[b] == ws[k2 as int]);
                }
            }
        }
        k2 = k2 + 1;
    }
    proof {
        assert(whouse@.items.take(whouse@.items.len() as int) =~= whouse@.items);
        assert(create_warehouse_allowed(s0, whouse@));
    }
    let w = copy_warehouse(whouse);
    proof {
        lemma_whs_view_push(store.warehouses@, w);
    }
    store.warehouses.push(w);
    let ghost marked_all = mark_warehouse(s0.items, whouse@.items, Some(whouse.id));
    let mut k3: usize = 0;
    proof {
        assert(store@.items =~= mark_warehouse(s0.items, whouse@.items.take(0), Some(whouse@.id)));
    }
    while k3 < whouse.items.len()
        invariant
            s0.wf(),
            create_warehouse_allowed(s0, whouse@),
            k3 <= whouse@.items.len(),
            store@.warehouses == s0.warehouses.push(whouse@),
            store@.items == mark_warehouse(
                s0.items,
                whouse@.items.take(k3 as int),
                Some(whouse@.id),
            ),
        decreases whouse@.items.len() - k3,
    {
        let id = whouse.items[k3];
        proof {
            assert(cw_item_ok(s0, id));
            lemma_item_found(s0, id);
            let a0 = s0.item_index(id);
            assert(store@.items[a0].id == id);
            assert(store@.has_item(id));
        }
        let idx = match store.find_item(id) {
            None => unreached(),
            Some(idx) => idx,
        };
        proof {
            assert(s0.items[idx as int].id == id);
            lemma_item_index(s0, id, idx as int);
            assert(!whouse@.items.take(k3 as int).contains(id));
            assert(store@.items[idx as int] == s0.items[idx as int]);
            lemma_mark_warehouse_extend(
                s0.items,
                whouse@.items,
                k3 as int,
                Some(whouse@.id),
                idx as int,
            );
        }
        let it = store.items[idx];
        store.items[idx] = InventoryItem { warehouse: Some(whouse.id), ..it };
        proof {
            assert(store@.items =~= mark_warehouse(
                s0.items,
                whouse@.items.take(k3 as int + 1),
                Some(whouse@.id),
            ));
        }
        k3 = k3 + 1;
    }
    proof {
        assert(whouse@.items.take(whouse@.items.len() as int) =~= whouse@.items);
        assert(store@ =~~= create_warehouse_step(s0, whouse@));
        lemma_create_warehouse_step_wf(s0, whouse@);
        if s0.consistent() {
            lemma_create_warehouse_step_consistent(s0, whouse@);
        }
    }
    Ok(copy_warehouse(whouse))
}


/// A listed item points back at warehouse `w_id`: what `delete_warehouse`
/// demands of every entry before it cascades.
pub open spec fn dw_item_ok(s: StoreView, w_id: i32, id: i32) -> bool {
    s.has_item(id) && s.item_at(id).warehouse == Some(w_id)
}

/// When deleting warehouse `w_id` succeeds: it exists, and every listed item
/// can be unassigned from it.
pub open spec fn delete_warehouse_allowed(s: StoreView, w_id: i32) -> bool {
    &&& s.has_warehouse(w_id)
    &&& forall|k: int|
        0 <= k < s.warehouse_at(w_id).items.len() ==> dw_item_ok(
            s,
            w_id,
            #[trigger] s.warehouse_at(w_id).items[k],
        )
}

/// The store after a successful delete: every listed item is unassigned, and
/// the warehouse record is removed.
pub open spec fn delete_warehouse_step(s: StoreView, w_id: i32) -> StoreView {
    StoreView {
        items: mark_warehouse(s.items, s.warehouse_at(w_id).items, None),
        warehouses: s.warehouses.remove(s.warehouse_index(w_id)),
    }
}

/// The error a failed delete reports: a missing warehouse, or, for the
/// first listed item the cascade cannot unassign, what the unassign would
/// have reported.
pub open spec fn delete_warehouse_error(s: StoreView, w_id: i32, e: Error) -> bool {
    if !s.has_warehouse(w_id) {
        e.kind == ErrorKind::NotFound && e.msg@ == messages::msg_warehouse_missing(w_id as int)
    } else {
        exists|k: int|
            {
                &&& 0 <= k < s.warehouse_at(w_id).items.len()
                &&& !dw_item_ok(s, w_id, #[trigger] s.warehouse_at(w_id).items[k])
                &&& forall|m: int|
                    0 <= m < k ==> dw_item_ok(s, w_id, #[trigger] s.warehouse_at(w_id).items[m])
                &&& if !s.has_item(s.warehouse_at(w_id).items[k]) {
                    e.kind == ErrorKind::NotFound && e.msg@ == messages::msg_item_missing(
                        s.warehouse_at(w_id).items[k] as int,
                    )
                } else {
                    match s.item_at(s.warehouse_at(w_id).items[k]).warehouse {
                        None => e.kind == ErrorKind::Conflict && e.msg@
                            == messages::msg_not_assigned(s.warehouse_at(w_id).items[k] as int),
                        Some(cur) => e.kind == ErrorKind::Conflict && e.msg@
                            == messages::msg_belongs_elsewhere(
                            s.warehouse_at(w_id).items[k] as int,
                            w_id as int,
                            cur as int,
                        ),
                    }
                }
            }
    }
}

/// A successful delete preserves well-formedness.
pub proof fn lemma_delete_warehouse_step_wf(s: StoreView, w_id: i32)
    requires
        s.wf(),
        delete_warehouse_allowed(s, w_id),
    ensures
        delete_warehouse_step(s, w_id).wf(),
{
    lemma_warehouse_found(s, w_id);
    let j = s.warehouse_index(w_id);
    let t = delete_warehouse_step(s, w_id);
    assert forall|a: int, b: int| 0 <= a < b < t.items.len() implies t.items[a].id
        != t.items[b].id by {
        assert(t.items[a].id == s.items[a].id);
        assert(t.items[b].id == s.items[b].id);
        assert(s.items[a].id != s.items[b].id);
    }
    lemma_warehouses_remove_unique(s, j);
    assert forall|b: int| 0 <= b < t.warehouses.len() implies dup_free(
        #[trigger] t.warehouses[b].items,
    ) by {
        let b0: int = if b < j {
            b
        } else {
            b + 1
        };
        assert(t.warehouses[b] == s.warehouses[b0]);
        assert(dup_free(s.warehouses[b0].items));
    }
}

/// A successful delete preserves the consistency invariant.
pub proof fn lemma_delete_warehouse_step_consistent(s: StoreView, w_id: i32)
    requires
        s.wf(),
        s.consistent(),
        delete_warehouse_allowed(s, w_id),
    ensures
        delete_warehouse_step(s, w_id).consistent(),
{
    lemma_warehouse_found(s, w_id);
    let j = s.warehouse_index(w_id);
    let lst = s.warehouse_at(w_id).items;
    let t = delete_warehouse_step(s, w_id);
    lemma_delete_warehouse_step_wf(s, w_id);

    assert forall|a: int| 0 <= a < t.items.len() implies #[trigger] t.item_ok(a) by {
        if !lst.contains(s.items[a].id) {
            assert(t.items[a] == s.items[a]);
            assert(s.item_ok(a));
            match t.items[a].warehouse {
                Some(w2) => {
                    assert(w2 != w_id) by {
                        if w2 == w_id {
                            assert(s.warehouse_at(w_id).items.contains(s.items[a].id));
                        }
                    }
                    lemma_warehouse_found(s, w2);
                    let b0 = s.warehouse_index(w2);
                    assert(b0 != j);
                    let b: int = if b0 < j {
                        b0
                    } else {
                        b0 - 1
                    };
                    assert(t.warehouses[b] == s.warehouses[b0]);
                    lemma_warehouse_index(t, w2, b);
                    assert(t.warehouse_at(w2).items.contains(t.items[a].id));
                },
                None => {},
            }
        }
    }

    assert forall|b: int, k: int|
        0 <= b < t.warehouses.len() && 0 <= k < t.warehouses[b].items.len() implies #[trigger] t.entry_ok(
        b,
        k,
    ) by {
        let b0: int = if b < j {
            b
        } else {
            b + 1
        };
        assert(t.warehouses[b] == s.warehouses[b0]);
        let id = s.warehouses[b0].items[k];
        assert(s.entry_ok(b0, k));
        assert(s.item_at(id).warehouse == Some(s.warehouses[b0].id));
        assert(s.warehouses[b0].id != w_id);
        lemma_item_found(s, id);
        let a = s.item_index(id);
        assert(!lst.contains(id)) by {
            if lst.contains(id) {
                let kk = choose|kk: int| 0 <= kk < lst.len() && lst[kk] == id;
                assert(dw_item_ok(s, w_id, lst[kk]));
            }
        }
        assert(t.items[a] == s.items[a]);
        lemma_item_index(t, id, a);
        assert(t.item_at(id).warehouse == Some(t.warehouses[b].id));
    }
}

/// Deletes warehouse `w_id`, first unassigning every item it lists; a
/// cascade failure aborts the delete. Returns the pre-delete record, its
/// original items list included.
pub fn delete_warehouse(store: &mut Store, w_id: i32) -> (r: Result<Warehouse, Error>)
    requires
        old(store)@.wf(),
    ensures
        final(store)@.wf(),
        r is Ok <==> delete_warehouse_allowed(old(store)@, w_id),
        r matches Ok(w) ==> w@ == old(store)@.warehouse_at(w_id) && final(store)@
            == delete_warehouse_step(old(store)@, w_id),
        r matches Err(e) ==> final(store)@ == old(store)@ && delete_warehouse_error(
            old(store)@,
            w_id,
            e,
        ),
        old(store)@.consistent() && r is Ok ==> final(store)@.consistent(),
{
    let j = match store.find_warehouse(w_id) {
        None => {
            return Err(
                Error { kind: ErrorKind::NotFound, msg: messages::build_warehouse_missing(w_id) },
            );
        },
        Some(j) => j,
    };
    proof {
        lemma_warehouse_index(store@, w_id, j as int);
    }
    let snapshot = copy_warehouse(&store.warehouses[j]);
    let ghost s0 = old(store)@;
    let ghost lst = s0.warehouse_at(w_id).items;
    let mut k: usize = 0;
    while k < snapshot.items.len()
        invariant
            store@ == s0,
            s0.wf(),
            s0.has_warehouse(w_id),
            snapshot@ == s0.warehouse_at(w_id),
            lst == s0.warehouse_at(w_id).items,
            k <= lst.len(),
            forall|m: int| 0 <= m < k ==> dw_item_ok(s0, w_id, #[trigger] lst[m]),
        decreases lst.len() - k,
    {
        let id = snapshot.items[k];
        match store.find_item(id) {
            None => {
                let e = Error {
                    kind: ErrorKind::NotFound,
                    msg: messages::build_item_missing(id),
                };
                proof {
                    assert(lst[k as int] == id);
                    assert(!dw_item_ok(s0, w_id, lst[k as int]));
                    assert(delete_warehouse_error(s0, w_id, e));
                }
                return Err(e);
            },
            Some(idx) => {
                proof {
                    lemma_item_index(s0, id, idx as int);
                }
                match store.items[idx].warehouse {
                    None => {
                        let e = Error {
                            kind: ErrorKind::Conflict,
                            msg: messages::build_not_assigned(id),
                        };
                        proof {
                            assert(lst[k as int] == id);
                            assert(!dw_item_ok(s0, w_id, lst[k as int]));
                            assert(delete_warehouse_error(s0, w_id, e));
                        }
                        return Err(e);
                    },
                    Some(cur) => {
                        if cur != w_id {
                            let e = Error {
                                kind: ErrorKind::Conflict,
                                msg: messages::build_belongs_elsewhere(id, w_id, cur),
                            };
                            proof {
                                assert(lst[k as int] == id);
                                assert(!dw_item_ok(s0, w_id, lst[k as int]));
                                assert(delete_warehouse_error(s0, w_id, e));
                            }
                            return Err(e);
                        }
                    },
                }
            },
        }
        k = k + 1;
    }
    proof {
        assert(delete_warehouse_allowed(s0, w_id));
        assert(dup_free(lst));
    }
    let mut k3: usize = 0;
    proof {
        assert(store@.items =~= mark_warehouse(s0.items, lst.take(0), None));
    }
    while k3 < snapshot.items.len()
        invariant
            s0.wf(),
            delete_warehouse_allowed(s0, w_id),
            snapshot@ == s0.warehouse_at(w_id),
            lst == s0.warehouse_at(w_id).items,
            dup_free(lst),
            k3 <= lst.len(),
            store@.warehouses == s0.warehouses,
            store@.items == mark_warehouse(s0.items, lst.take(k3 as int), None),
        decreases lst.len() - k3,
    {
        let id = snapshot.items[k3];
        proof {
            assert(dw_item_ok(s0, w_id, lst[k3 as int]));
            lemma_item_found(s0, id);
            let a0 = s0.item_index(id);
            assert(store@.items[a0].id == id);
            assert(store@.has_item(id));
        }
        let idx = match store.find_item(id) {
            None => unreached(),
            Some(idx) => idx,
        };
        proof {
            assert(s0.items[idx as int].id == id);
            lemma_item_index(s0, id, idx as int);
            assert(!lst.take(k3 as int).contains(id));
            assert(store@.items[idx as int] == s0.items[idx as int]);
            lemma_mark_warehouse_extend(s0.items, lst, k3 as int, None, idx as int);
        }
        let it = store.items[idx];
        store.items[idx] = InventoryItem { warehouse: None, ..it };
        proof {
            assert(store@.items =~= mark_warehouse(s0.items, lst.take(k3 as int + 1), None));
        }
        k3 = k3 + 1;
    }
    proof {
        assert(lst.take(lst.len() as int) =~= lst);
        assert(store@.has_warehouse(w_id)) by {
            lemma_warehouse_found(s0, w_id);
            let j0 = s0.warehouse_index(w_id);
            assert(store@.warehouses[j0].id == w_id);
        }
    }
    let j2 = match store.find_warehouse(w_id) {
        None => unreached(),
        Some(j2) => j2,
    };
    proof {
        assert(store@.warehouses == s0.warehouses);
        lemma_warehouse_index(s0, w_id, j2 as int);
        lemma_whs_view_remove(store.warehouses@, j2 as int);
    }
    store.warehouses.remove(j2);
    proof {
        assert(store@ =~~= delete_warehouse_step(s0, w_id));
        lemma_delete_warehouse_step_wf(s0, w_id);
        if s0.consistent() {
            lemma_delete_warehouse_step_consistent(s0, w_id);
        }
    }
    Ok(snapshot)
}

} // verus!
