use warehouser::api::{status_code, IdPayload, LimitPayload, DEFAULT_LIMIT};
use warehouser::csv::{format_item_csv, format_warehouse_csv};
use warehouser::decimal::{i32_string, i64_string};
use warehouser::models::{Dimensions, ErrorKind, InventoryItem, Transport, Warehouse};

#[test]
fn decimal_renders_exact_digits() {
    assert_eq!(i32_string(0), "0");
    assert_eq!(i32_string(7), "7");
    assert_eq!(i32_string(10), "10");
    assert_eq!(i32_string(409), "409");
    assert_eq!(i32_string(-1), "-1");
    assert_eq!(i32_string(-120), "-120");
    assert_eq!(i32_string(i32::MAX), "2147483647");
    assert_eq!(i32_string(i32::MIN), "-2147483648");
    assert_eq!(i64_string(i64::MAX), "9223372036854775807");
    assert_eq!(i64_string(i64::MIN), "-9223372036854775808");
}

#[test]
fn transport_names_round_trip() {
    assert_eq!(Transport::Air.name(), "Air");
    assert_eq!(Transport::Sea.name(), "Sea");
    assert_eq!(Transport::Land.name(), "Land");
    assert_eq!(Transport::parse("Air"), Some(Transport::Air));
    assert_eq!(Transport::parse("Sea"), Some(Transport::Sea));
    assert_eq!(Transport::parse("Land"), Some(Transport::Land));
    assert_eq!(Transport::parse("air"), None);
    assert_eq!(Transport::parse("Sear"), None);
    assert_eq!(Transport::parse(""), None);
}

#[test]
fn item_csv_of_empty_list_is_header_only() {
    let out = format_item_csv(&vec![]).unwrap();
    assert_eq!(out, "id,weight,value,transport,width,height,depth\n");
}

#[test]
fn item_csv_renders_rows_in_order() {
    let items = vec![
        InventoryItem {
            id: 1,
            warehouse: None,
            weight: 5,
            value: 100,
            transport: Transport::Sea,
            dimensions: Dimensions { width: 2, height: 3, depth: 4 },
        },
        InventoryItem {
            id: -2,
            warehouse: Some(1),
            weight: 0,
            value: 17,
            transport: Transport::Air,
            dimensions: Dimensions { width: 10, height: 20, depth: 30 },
        },
    ];
    let out = format_item_csv(&items).unwrap();
    assert_eq!(
        out,
        "id,weight,value,transport,width,height,depth\n\
         1,5,100,Sea,2,3,4\n\
         -2,0,17,Air,10,20,30\n"
    );
}

#[test]
fn warehouse_csv_of_empty_list_is_header_only() {
    let out = format_warehouse_csv(&vec![]).unwrap();
    assert_eq!(out, "id,items\n");
}

#[test]
fn warehouse_csv_quotes_and_separates_ids() {
    let out = format_warehouse_csv(&vec![Warehouse { id: 1, items: vec![2, 3] }]).unwrap();
    assert_eq!(out, "id,items\n1,\"2, 3\"\n");
}

#[test]
fn warehouse_csv_handles_empty_and_single_lists() {
    let whs = vec![
        Warehouse { id: 4, items: vec![] },
        Warehouse { id: 5, items: vec![9] },
    ];
    let out = format_warehouse_csv(&whs).unwrap();
    assert_eq!(out, "id,items\n4,\"\"\n5,\"9\"\n");
}

#[test]
fn limit_payload_falls_back_to_default() {
    assert_eq!(DEFAULT_LIMIT, 100);
    assert_eq!(LimitPayload { limit: None }.limit(), 100);
    assert_eq!(LimitPayload { limit: Some(7) }.limit(), 7);
    assert_eq!(IdPayload { id: 3 }.id, 3);
}

#[test]
fn status_codes_follow_error_kinds() {
    assert_eq!(status_code(ErrorKind::NotFound), 404);
    assert_eq!(status_code(ErrorKind::Conflict), 400);
    assert_eq!(status_code(ErrorKind::Inconsistency), 500);
    assert_eq!(status_code(ErrorKind::StoreUnavailable), 500);
    assert_eq!(status_code(ErrorKind::NotImplemented), 501);
    assert_eq!(status_code(ErrorKind::SerializationFailure), 500);
}
