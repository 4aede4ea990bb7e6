use warehouser::models::{Dimensions, ErrorKind, InventoryItem, Transport, Warehouse};
use warehouser::service::{
    create_item, create_warehouse, delete_item, delete_warehouse, update_item, update_warehouse,
    warehouse_add_item, warehouse_get_items, warehouse_remove_item,
};
use warehouser::store::Store;

fn item(id: i32, warehouse: Option<i32>) -> InventoryItem {
    InventoryItem {
        id,
        warehouse,
        weight: 5,
        value: 100,
        transport: Transport::Sea,
        dimensions: Dimensions { width: 2, height: 3, depth: 4 },
    }
}

#[test]
fn end_to_end_scenario() {
    let mut store = Store::new();
    let w = create_warehouse(&mut store, &Warehouse { id: 1, items: vec![] }).unwrap();
    assert_eq!(w.id, 1);
    assert_eq!(w.items, Vec::<i32>::new());
    create_item(&mut store, &item(10, None)).unwrap();
    let w = warehouse_add_item(&mut store, 1, 10).unwrap();
    assert_eq!(w.items, vec![10]);
    let w = store.get_warehouse(1).unwrap();
    assert_eq!(w.items, vec![10]);
    let it = store.get_item(10).unwrap();
    assert_eq!(it.warehouse, Some(1));
    let w = warehouse_remove_item(&mut store, 1, 10).unwrap();
    assert_eq!(w.items, Vec::<i32>::new());
    let it = store.get_item(10).unwrap();
    assert_eq!(it.warehouse, None);
}

#[test]
fn assign_then_unassign_restores_list() {
    let mut store = Store::new();
    create_item(&mut store, &item(5, None)).unwrap();
    create_item(&mut store, &item(10, None)).unwrap();
    create_warehouse(&mut store, &Warehouse { id: 1, items: vec![5] }).unwrap();
    let before = store.get_warehouse(1).unwrap().items;
    warehouse_add_item(&mut store, 1, 10).unwrap();
    warehouse_remove_item(&mut store, 1, 10).unwrap();
    assert_eq!(store.get_warehouse(1).unwrap().items, before);
    assert_eq!(before, vec![5]);
}

#[test]
fn assign_to_same_warehouse_twice_conflicts() {
    let mut store = Store::new();
    create_warehouse(&mut store, &Warehouse { id: 1, items: vec![] }).unwrap();
    create_item(&mut store, &item(10, None)).unwrap();
    warehouse_add_item(&mut store, 1, 10).unwrap();
    let e = warehouse_add_item(&mut store, 1, 10).unwrap_err();
    assert_eq!(e.kind, ErrorKind::Conflict);
    assert_eq!(e.msg, "Item id 10 already belongs to warehouse id 1");
}

#[test]
fn assign_to_other_warehouse_conflicts_naming_owner() {
    let mut store = Store::new();
    create_warehouse(&mut store, &Warehouse { id: 1, items: vec![] }).unwrap();
    create_warehouse(&mut store, &Warehouse { id: 2, items: vec![] }).unwrap();
    create_item(&mut store, &item(10, None)).unwrap();
    warehouse_add_item(&mut store, 1, 10).unwrap();
    let e = warehouse_add_item(&mut store, 2, 10).unwrap_err();
    assert_eq!(e.kind, ErrorKind::Conflict);
    assert_eq!(
        e.msg,
        "Cannot assign item id 10 to warehouse id 2 as it already belongs to warehouse id 1"
    );
}

#[test]
fn assign_missing_item_not_found() {
    let mut store = Store::new();
    create_warehouse(&mut store, &Warehouse { id: 1, items: vec![] }).unwrap();
    let e = warehouse_add_item(&mut store, 1, 99).unwrap_err();
    assert_eq!(e.kind, ErrorKind::NotFound);
    assert_eq!(e.msg, "Item id 99 does not exist");
}

#[test]
fn assign_missing_warehouse_not_found() {
    let mut store = Store::new();
    create_item(&mut store, &item(10, None)).unwrap();
    let e = warehouse_add_item(&mut store, 7, 10).unwrap_err();
    assert_eq!(e.kind, ErrorKind::NotFound);
    assert_eq!(e.msg, "Warehouse id 7 does not exist");
    assert_eq!(store.get_item(10).unwrap().warehouse, None);
}

#[test]
fn assign_detects_inconsistent_store() {
    let mut store = Store {
        items: vec![item(10, None)],
        warehouses: vec![Warehouse { id: 1, items: vec![10] }],
    };
    let e = warehouse_add_item(&mut store, 1, 10).unwrap_err();
    assert_eq!(e.kind, ErrorKind::Inconsistency);
    assert_eq!(store.get_item(10).unwrap().warehouse, None);
}

#[test]
fn unassign_unassigned_item_conflicts() {
    let mut store = Store::new();
    create_warehouse(&mut store, &Warehouse { id: 1, items: vec![] }).unwrap();
    create_item(&mut store, &item(10, None)).unwrap();
    let e = warehouse_remove_item(&mut store, 1, 10).unwrap_err();
    assert_eq!(e.kind, ErrorKind::Conflict);
    assert_eq!(e.msg, "Item id 10 does not belong to any warehouse");
}

#[test]
fn unassign_from_wrong_warehouse_conflicts() {
    let mut store = Store::new();
    create_warehouse(&mut store, &Warehouse { id: 1, items: vec![] }).unwrap();
    create_warehouse(&mut store, &Warehouse { id: 2, items: vec![] }).unwrap();
    create_item(&mut store, &item(10, None)).unwrap();
    warehouse_add_item(&mut store, 1, 10).unwrap();
    let e = warehouse_remove_item(&mut store, 2, 10).unwrap_err();
    assert_eq!(e.kind, ErrorKind::Conflict);
    assert_eq!(
        e.msg,
        "Item id 10 does not belong to warehouse id 2, belongs to warehouse id 1"
    );
}

#[test]
fn unassign_detects_inconsistent_store() {
    let mut store = Store {
        items: vec![item(10, Some(1))],
        warehouses: vec![Warehouse { id: 1, items: vec![] }],
    };
    let e = warehouse_remove_item(&mut store, 1, 10).unwrap_err();
    assert_eq!(e.kind, ErrorKind::Inconsistency);
    assert_eq!(store.get_item(10).unwrap().warehouse, Some(1));
}

#[test]
fn delete_item_cascades_out_of_warehouse() {
    let mut store = Store::new();
    create_warehouse(&mut store, &Warehouse { id: 1, items: vec![] }).unwrap();
    create_item(&mut store, &item(10, None)).unwrap();
    warehouse_add_item(&mut store, 1, 10).unwrap();
    let snapshot = delete_item(&mut store, 10).unwrap();
    assert_eq!(snapshot.warehouse, Some(1));
    assert_eq!(store.get_warehouse(1).unwrap().items, Vec::<i32>::new());
    let e = store.get_item(10).unwrap_err();
    assert_eq!(e.kind, ErrorKind::NotFound);
}

#[test]
fn delete_missing_item_not_found() {
    let mut store = Store::new();
    let e = delete_item(&mut store, 10).unwrap_err();
    assert_eq!(e.kind, ErrorKind::NotFound);
    assert_eq!(e.msg, "Item id 10 does not exist");
}

#[test]
fn delete_item_aborts_on_cascade_failure() {
    let mut store = Store {
        items: vec![item(10, Some(1))],
        warehouses: vec![Warehouse { id: 1, items: vec![] }],
    };
    let e = delete_item(&mut store, 10).unwrap_err();
    assert_eq!(e.kind, ErrorKind::Inconsistency);
    assert!(store.get_item(10).is_ok());
}

#[test]
fn create_item_with_missing_warehouse_not_found() {
    let mut store = Store::new();
    let e = create_item(&mut store, &item(10, Some(3))).unwrap_err();
    assert_eq!(e.kind, ErrorKind::NotFound);
    assert_eq!(
        e.msg,
        "Cannot create item with warehouse id 3, because it does not exist"
    );
}

#[test]
fn create_item_duplicate_id_conflicts() {
    let mut store = Store::new();
    create_item(&mut store, &item(10, None)).unwrap();
    let e = create_item(&mut store, &item(10, None)).unwrap_err();
    assert_eq!(e.kind, ErrorKind::Conflict);
    assert_eq!(e.msg, "Item id 10 already exists");
}

#[test]
fn create_item_with_warehouse_registers_membership() {
    let mut store = Store::new();
    create_warehouse(&mut store, &Warehouse { id: 1, items: vec![] }).unwrap();
    create_item(&mut store, &item(10, Some(1))).unwrap();
    assert_eq!(store.get_warehouse(1).unwrap().items, vec![10]);
    assert_eq!(store.get_item(10).unwrap().warehouse, Some(1));
}

#[test]
fn create_warehouse_with_items_assigns_them() {
    let mut store = Store::new();
    create_item(&mut store, &item(10, None)).unwrap();
    create_item(&mut store, &item(11, None)).unwrap();
    let w = create_warehouse(&mut store, &Warehouse { id: 1, items: vec![10, 11] }).unwrap();
    assert_eq!(w.items, vec![10, 11]);
    assert_eq!(store.get_item(10).unwrap().warehouse, Some(1));
    assert_eq!(store.get_item(11).unwrap().warehouse, Some(1));
    assert_eq!(store.get_warehouse(1).unwrap().items, vec![10, 11]);
}

#[test]
fn create_warehouse_existing_id_conflicts() {
    let mut store = Store::new();
    create_warehouse(&mut store, &Warehouse { id: 1, items: vec![] }).unwrap();
    let e = create_warehouse(&mut store, &Warehouse { id: 1, items: vec![] }).unwrap_err();
    assert_eq!(e.kind, ErrorKind::Conflict);
    assert_eq!(e.msg, "Warehouse id 1 already exists");
}

#[test]
fn create_warehouse_with_assigned_item_leaves_no_trace() {
    let mut store = Store::new();
    create_warehouse(&mut store, &Warehouse { id: 1, items: vec![] }).unwrap();
    create_item(&mut store, &item(10, None)).unwrap();
    create_item(&mut store, &item(11, None)).unwrap();
    warehouse_add_item(&mut store, 1, 10).unwrap();
    let e = create_warehouse(&mut store, &Warehouse { id: 2, items: vec![10, 11] }).unwrap_err();
    assert_eq!(e.kind, ErrorKind::Conflict);
    assert_eq!(
        e.msg,
        "Cannot create warehouse, item id 10 already belongs to warehouse id 1"
    );
    assert_eq!(store.get_warehouse(2).unwrap_err().kind, ErrorKind::NotFound);
    assert_eq!(store.get_item(11).unwrap().warehouse, None);
}

#[test]
fn create_warehouse_with_missing_item_not_found() {
    let mut store = Store::new();
    let e = create_warehouse(&mut store, &Warehouse { id: 1, items: vec![42] }).unwrap_err();
    assert_eq!(e.kind, ErrorKind::NotFound);
    assert_eq!(e.msg, "Cannot create warehouse, item id 42 does not exist");
    assert_eq!(store.get_warehouse(1).unwrap_err().kind, ErrorKind::NotFound);
}

#[test]
fn create_warehouse_with_repeated_item_conflicts() {
    let mut store = Store::new();
    create_item(&mut store, &item(10, None)).unwrap();
    let e = create_warehouse(&mut store, &Warehouse { id: 1, items: vec![10, 10] }).unwrap_err();
    assert_eq!(e.kind, ErrorKind::Conflict);
    assert_eq!(e.msg, "Item id 10 already belongs to warehouse id 1");
    assert_eq!(store.get_warehouse(1).unwrap_err().kind, ErrorKind::NotFound);
    assert_eq!(store.get_item(10).unwrap().warehouse, None);
}

#[test]
fn delete_warehouse_unassigns_and_returns_snapshot() {
    let mut store = Store::new();
    create_item(&mut store, &item(10, None)).unwrap();
    create_item(&mut store, &item(11, None)).unwrap();
    create_warehouse(&mut store, &Warehouse { id: 1, items: vec![10, 11] }).unwrap();
    let snapshot = delete_warehouse(&mut store, 1).unwrap();
    assert_eq!(snapshot.items, vec![10, 11]);
    assert_eq!(store.get_warehouse(1).unwrap_err().kind, ErrorKind::NotFound);
    assert_eq!(store.get_item(10).unwrap().warehouse, None);
    assert_eq!(store.get_item(11).unwrap().warehouse, None);
}

#[test]
fn delete_missing_warehouse_not_found() {
    let mut store = Store::new();
    let e = delete_warehouse(&mut store, 1).unwrap_err();
    assert_eq!(e.kind, ErrorKind::NotFound);
    assert_eq!(e.msg, "Warehouse id 1 does not exist");
}

#[test]
fn delete_warehouse_aborts_on_cascade_failure() {
    let mut store = Store {
        items: vec![item(10, None)],
        warehouses: vec![Warehouse { id: 1, items: vec![10] }],
    };
    let e = delete_warehouse(&mut store, 1).unwrap_err();
    assert_eq!(e.kind, ErrorKind::Conflict);
    assert_eq!(e.msg, "Item id 10 does not belong to any warehouse");
    assert!(store.get_warehouse(1).is_ok());
}

#[test]
fn update_item_cannot_change_warehouse() {
    let mut store = Store::new();
    create_warehouse(&mut store, &Warehouse { id: 1, items: vec![] }).unwrap();
    create_item(&mut store, &item(10, None)).unwrap();
    warehouse_add_item(&mut store, 1, 10).unwrap();
    let e = update_item(&mut store, &item(10, None)).unwrap_err();
    assert_eq!(e.kind, ErrorKind::Conflict);
    assert_eq!(
        e.msg,
        "Updating an item's warehouse is not supported, use the warehouse item add/remove endpoint"
    );
    let e = update_item(&mut store, &item(10, Some(2))).unwrap_err();
    assert_eq!(e.kind, ErrorKind::Conflict);
}

#[test]
fn update_item_persists_other_fields() {
    let mut store = Store::new();
    create_warehouse(&mut store, &Warehouse { id: 1, items: vec![] }).unwrap();
    create_item(&mut store, &item(10, None)).unwrap();
    warehouse_add_item(&mut store, 1, 10).unwrap();
    let changed = InventoryItem {
        id: 10,
        warehouse: Some(1),
        weight: 9,
        value: 250,
        transport: Transport::Air,
        dimensions: Dimensions { width: 7, height: 8, depth: 9 },
    };
    let out = update_item(&mut store, &changed).unwrap();
    assert_eq!(out, changed);
    assert_eq!(store.get_item(10).unwrap(), changed);
    assert_eq!(store.get_warehouse(1).unwrap().items, vec![10]);
}

#[test]
fn update_missing_item_not_found() {
    let mut store = Store::new();
    let e = update_item(&mut store, &item(10, None)).unwrap_err();
    assert_eq!(e.kind, ErrorKind::NotFound);
    assert_eq!(
        e.msg,
        "Cannot update item 10 as it doesn't exist. Try creating the item instead"
    );
}

#[test]
fn update_warehouse_is_not_implemented() {
    let store = Store::new();
    let e = update_warehouse(&store, &Warehouse { id: 1, items: vec![] }).unwrap_err();
    assert_eq!(e.kind, ErrorKind::NotImplemented);
    assert_eq!(
        e.msg,
        "Updating warehouses is not supported, to add and remove items use the respective endpoints"
    );
    let e = update_warehouse(&store, &Warehouse { id: 9, items: vec![1, 2, 3] }).unwrap_err();
    assert_eq!(e.kind, ErrorKind::NotImplemented);
}

#[test]
fn warehouse_get_items_lists_members() {
    let mut store = Store::new();
    create_item(&mut store, &item(10, None)).unwrap();
    create_item(&mut store, &item(11, None)).unwrap();
    create_item(&mut store, &item(12, None)).unwrap();
    create_warehouse(&mut store, &Warehouse { id: 1, items: vec![10, 12] }).unwrap();
    let members = warehouse_get_items(&store, 1, 100).unwrap();
    let ids: Vec<i32> = members.iter().map(|it| it.id).collect();
    assert_eq!(ids, vec![10, 12]);
    let capped = warehouse_get_items(&store, 1, 1).unwrap();
    assert_eq!(capped.len(), 1);
}

#[test]
fn warehouse_get_items_missing_warehouse_not_found() {
    let store = Store::new();
    let e = warehouse_get_items(&store, 1, 100).unwrap_err();
    assert_eq!(e.kind, ErrorKind::NotFound);
    assert_eq!(
        e.msg,
        "Cannot get items for warehouse id 1, as it does not exist"
    );
}
