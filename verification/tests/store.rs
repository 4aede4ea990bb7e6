use warehouser::models::{Dimensions, ErrorKind, InventoryItem, NotFound, Transport, Warehouse};
use warehouser::store::Store;

fn plain_item(id: i32) -> InventoryItem {
    InventoryItem {
        id,
        warehouse: None,
        weight: 1,
        value: 10,
        transport: Transport::Land,
        dimensions: Dimensions { width: 1, height: 1, depth: 1 },
    }
}

#[test]
fn store_insert_and_get_item() {
    let mut store = Store::new();
    let it = store.insert_item(&plain_item(1)).unwrap();
    assert_eq!(it, plain_item(1));
    assert_eq!(store.get_item(1).unwrap(), plain_item(1));
}

#[test]
fn store_insert_duplicate_item_conflicts() {
    let mut store = Store::new();
    store.insert_item(&plain_item(1)).unwrap();
    let e = store.insert_item(&plain_item(1)).unwrap_err();
    assert_eq!(e.kind, ErrorKind::Conflict);
    assert_eq!(e.msg, "Item id 1 already exists");
}

#[test]
fn store_get_items_respects_limit() {
    let mut store = Store::new();
    for id in 1..=5 {
        store.insert_item(&plain_item(id)).unwrap();
    }
    assert_eq!(store.get_items(3).len(), 3);
    assert_eq!(store.get_items(100).len(), 5);
    assert_eq!(store.get_items(0).len(), 0);
    assert_eq!(store.get_items(-2).len(), 0);
}

#[test]
fn store_get_items_by_id_filters_and_caps() {
    let mut store = Store::new();
    for id in 1..=5 {
        store.insert_item(&plain_item(id)).unwrap();
    }
    let picked = store.get_items_by_id(100, &vec![2, 4, 9]);
    let ids: Vec<i32> = picked.iter().map(|it| it.id).collect();
    assert_eq!(ids, vec![2, 4]);
    let capped = store.get_items_by_id(1, &vec![2, 4]);
    assert_eq!(capped.len(), 1);
    assert_eq!(capped[0].id, 2);
}

#[test]
fn store_update_item_replaces_record() {
    let mut store = Store::new();
    store.insert_item(&plain_item(1)).unwrap();
    let mut changed = plain_item(1);
    changed.weight = 42;
    store.update_item(&changed).unwrap();
    assert_eq!(store.get_item(1).unwrap().weight, 42);
    let e = store.update_item(&plain_item(9)).unwrap_err();
    assert_eq!(e.kind, ErrorKind::NotFound);
}

#[test]
fn store_delete_item_removes_record() {
    let mut store = Store::new();
    store.insert_item(&plain_item(1)).unwrap();
    let removed = store.delete_item(1).unwrap();
    assert_eq!(removed.id, 1);
    assert_eq!(store.get_item(1).unwrap_err().kind, ErrorKind::NotFound);
    assert_eq!(store.delete_item(1).unwrap_err().kind, ErrorKind::NotFound);
}

#[test]
fn store_warehouse_roundtrip() {
    let mut store = Store::new();
    let w = Warehouse { id: 1, items: vec![4, 5] };
    store.insert_warehouse(&w).unwrap();
    assert_eq!(store.get_warehouse(1).unwrap().items, vec![4, 5]);
    let e = store.insert_warehouse(&w).unwrap_err();
    assert_eq!(e.kind, ErrorKind::Conflict);
    assert_eq!(e.msg, "Warehouse id 1 already exists");
    let removed = store.delete_warehouse(1).unwrap();
    assert_eq!(removed.items, vec![4, 5]);
    assert_eq!(store.get_warehouse(1).unwrap_err().kind, ErrorKind::NotFound);
}

#[test]
fn store_insert_warehouse_rejects_repeated_ids() {
    let mut store = Store::new();
    let e = store
        .insert_warehouse(&Warehouse { id: 1, items: vec![4, 4] })
        .unwrap_err();
    assert_eq!(e.kind, ErrorKind::Conflict);
    assert_eq!(e.msg, "Warehouse id 1 lists an item more than once");
}

#[test]
fn store_update_warehouse_replaces_record() {
    let mut store = Store::new();
    store
        .insert_warehouse(&Warehouse { id: 1, items: vec![] })
        .unwrap();
    store
        .update_warehouse(&Warehouse { id: 1, items: vec![7] })
        .unwrap();
    assert_eq!(store.get_warehouse(1).unwrap().items, vec![7]);
    let e = store
        .update_warehouse(&Warehouse { id: 2, items: vec![] })
        .unwrap_err();
    assert_eq!(e.kind, ErrorKind::NotFound);
    let e = store
        .update_warehouse(&Warehouse { id: 1, items: vec![7, 7] })
        .unwrap_err();
    assert_eq!(e.kind, ErrorKind::Conflict);
}

#[test]
fn store_get_warehouses_respects_limit() {
    let mut store = Store::new();
    for id in 1..=4 {
        store
            .insert_warehouse(&Warehouse { id, items: vec![] })
            .unwrap();
    }
    assert_eq!(store.get_warehouses(2).len(), 2);
    assert_eq!(store.get_warehouses(100).len(), 4);
    assert_eq!(store.get_warehouses(-1).len(), 0);
}

#[test]
fn store_get_warehouses_by_id_filters() {
    let mut store = Store::new();
    for id in 1..=4 {
        store
            .insert_warehouse(&Warehouse { id, items: vec![] })
            .unwrap();
    }
    let picked = store.get_warehouses_by_id(100, &vec![2, 3, 9]);
    let ids: Vec<i32> = picked.iter().map(|w| w.id).collect();
    assert_eq!(ids, vec![2, 3]);
}

#[test]
fn not_found_replaces_only_not_found_messages() {
    let mut store = Store::new();
    let replaced = store
        .get_item(1)
        .not_found(String::from("item 1 is gone"))
        .unwrap_err();
    assert_eq!(replaced.kind, ErrorKind::NotFound);
    assert_eq!(replaced.msg, "item 1 is gone");

    store.insert_item(&plain_item(1)).unwrap();
    let kept = store
        .insert_item(&plain_item(1))
        .not_found(String::from("unused"))
        .unwrap_err();
    assert_eq!(kept.kind, ErrorKind::Conflict);
    assert_eq!(kept.msg, "Item id 1 already exists");

    let ok = store
        .get_item(1)
        .not_found(String::from("unused"))
        .unwrap();
    assert_eq!(ok.id, 1);
}
