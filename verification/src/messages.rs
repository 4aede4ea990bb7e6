//! The human-readable messages that the core's errors carry, each with its
//! exact character-level specification.

use vstd::prelude::*;

use crate::decimal::{dec_str, i32_string};

verus! {

/// "Item id {id} does not exist"
pub open spec fn msg_item_missing(id: int) -> Seq<char> {
    "Item id "@ + dec_str(id) + " does not exist"@
}

/// Builds [`msg_item_missing`].
pub fn build_item_missing(id: i32) -> (r: String)
    ensures
        r@ == msg_item_missing(id as int),
{
    let mut s = String::from_str("Item id ");
    s.append(i32_string(id).as_str());
    s.append(" does not exist");
    s
}

/// "Item id {item_id} already belongs to warehouse id {w_id}"
pub open spec fn msg_already_this_warehouse(item_id: int, w_id: int) -> Seq<char> {
    "Item id "@ + dec_str(item_id) + " already belongs to warehouse id "@ + dec_str(w_id)
}

/// Builds [`msg_already_this_warehouse`].
pub fn build_already_this_warehouse(item_id: i32, w_id: i32) -> (r: String)
    ensures
        r@ == msg_already_this_warehouse(item_id as int, w_id as int),
{
    let mut s = String::from_str("Item id ");
    s.append(i32_string(item_id).as_str());
    s.append(" already belongs to warehouse id ");
    s.append(i32_string(w_id).as_str());
    s
}

/// "Cannot assign item id {item_id} to warehouse id {w_id} as it already
/// belongs to warehouse id {other}"
pub open spec fn msg_already_other_warehouse(item_id: int, w_id: int, other: int) -> Seq<char> {
    "Cannot assign item id "@ + dec_str(item_id) + " to warehouse id "@ + dec_str(w_id)
        + " as it already belongs to warehouse id "@ + dec_str(other)
}

/// Builds [`msg_already_other_warehouse`].
pub fn build_already_other_warehouse(item_id: i32, w_id: i32, other: i32) -> (r: String)
    ensures
        r@ == msg_already_other_warehouse(item_id as int, w_id as int, other as int),
{
    let mut s = String::from_str("Cannot assign item id ");
    s.append(i32_string(item_id).as_str());
    s.append(" to warehouse id ");
    s.append(i32_string(w_id).as_str());
    s.append(" as it already belongs to warehouse id ");
    s.append(i32_string(other).as_str());
    s
}

/// "Warehouse id {w_id} does not exist"
pub open spec fn msg_warehouse_missing(w_id: int) -> Seq<char> {
    "Warehouse id "@ + dec_str(w_id) + " does not exist"@
}

/// Builds [`msg_warehouse_missing`].
pub fn build_warehouse_missing(w_id: i32) -> (r: String)
    ensures
        r@ == msg_warehouse_missing(w_id as int),
{
    let mut s = String::from_str("Warehouse id ");
    s.append(i32_string(w_id).as_str());
    s.append(" does not exist");
    s
}

/// "Inconsistency in store: item id {item_id} claims it belongs to no
/// warehouse, yet warehouse id {w_id} indicates ownership"
pub open spec fn msg_assign_inconsistent(item_id: int, w_id: int) -> Seq<char> {
    "Inconsistency in store: item id "@ + dec_str(item_id)
        + " claims it belongs to no warehouse, yet warehouse id "@ + dec_str(w_id)
        + " indicates ownership"@
}

/// Builds [`msg_assign_inconsistent`].
pub fn build_assign_inconsistent(item_id: i32, w_id: i32) -> (r: String)
    ensures
        r@ == msg_assign_inconsistent(item_id as int, w_id as int),
{
    let mut s = String::from_str("Inconsistency in store: item id ");
    s.append(i32_string(item_id).as_str());
    s.append(" claims it belongs to no warehouse, yet warehouse id ");
    s.append(i32_string(w_id).as_str());
    s.append(" indicates ownership");
    s
}

/// "Item id {item_id} does not belong to warehouse id {w_id}, belongs to
/// warehouse id {other}"
pub open spec fn msg_belongs_elsewhere(item_id: int, w_id: int, other: int) -> Seq<char> {
    "Item id "@ + dec_str(item_id) + " does not belong to warehouse id "@ + dec_str(w_id)
        + ", belongs to warehouse id "@ + dec_str(other)
}

/// Builds [`msg_belongs_elsewhere`].
pub fn build_belongs_elsewhere(item_id: i32, w_id: i32, other: i32) -> (r: String)
    ensures
        r@ == msg_belongs_elsewhere(item_id as int, w_id as int, other as int),
{
    let mut s = String::from_str("Item id ");
    s.append(i32_string(item_id).as_str());
    s.append(" does not belong to warehouse id ");
    s.append(i32_string(w_id).as_str());
    s.append(", belongs to warehouse id ");
    s.append(i32_string(other).as_str());
    s
}

/// "Item id {item_id} does not belong to any warehouse"
pub open spec fn msg_not_assigned(item_id: int) -> Seq<char> {
    "Item id "@ + dec_str(item_id) + " does not belong to any warehouse"@
}

/// Builds [`msg_not_assigned`].
pub fn build_not_assigned(item_id: i32) -> (r: String)
    ensures
        r@ == msg_not_assigned(item_id as int),
{
    let mut s = String::from_str("Item id ");
    s.append(i32_string(item_id).as_str());
    s.append(" does not belong to any warehouse");
    s
}

/// "Inconsistency in store: item id {item_id} claims it belongs to warehouse
/// id {w_id}, yet that warehouse does not indicate ownership"
pub open spec fn msg_unassign_inconsistent(item_id: int, w_id: int) -> Seq<char> {
    "Inconsistency in store: item id "@ + dec_str(item_id)
        + " claims it belongs to warehouse id "@ + dec_str(w_id)
        + ", yet that warehouse does not indicate ownership"@
}

/// Builds [`msg_unassign_inconsistent`].
pub fn build_unassign_inconsistent(item_id: i32, w_id: i32) -> (r: String)
    ensures
        r@ == msg_unassign_inconsistent(item_id as int, w_id as int),
{
    let mut s = String::from_str("Inconsistency in store: item id ");
    s.append(i32_string(item_id).as_str());
    s.append(" claims it belongs to warehouse id ");
    s.append(i32_string(w_id).as_str());
    s.append(", yet that warehouse does not indicate ownership");
    s
}

/// "Cannot create item with warehouse id {w_id}, because it does not exist"
pub open spec fn msg_create_item_warehouse_missing(w_id: int) -> Seq<char> {
    "Cannot create item with warehouse id "@ + dec_str(w_id) + ", because it does not exist"@
}

/// Builds [`msg_create_item_warehouse_missing`].
pub fn build_create_item_warehouse_missing(w_id: i32) -> (r: String)
    ensures
        r@ == msg_create_item_warehouse_missing(w_id as int),
{
    let mut s = String::from_str("Cannot create item with warehouse id ");
    s.append(i32_string(w_id).as_str());
    s.append(", because it does not exist");
    s
}

/// "Item id {id} already exists"
pub open spec fn msg_item_exists(id: int) -> Seq<char> {
    "Item id "@ + dec_str(id) + " already exists"@
}

/// Builds [`msg_item_exists`].
pub fn build_item_exists(id: i32) -> (r: String)
    ensures
        r@ == msg_item_exists(id as int),
{
    let mut s = String::from_str("Item id ");
    s.append(i32_string(id).as_str());
    s.append(" already exists");
    s
}

/// "Warehouse id {w_id} already exists"
pub open spec fn msg_warehouse_exists(w_id: int) -> Seq<char> {
    "Warehouse id "@ + dec_str(w_id) + " already exists"@
}

/// Builds [`msg_warehouse_exists`].
pub fn build_warehouse_exists(w_id: i32) -> (r: String)
    ensures
        r@ == msg_warehouse_exists(w_id as int),
{
    let mut s = String::from_str("Warehouse id ");
    s.append(i32_string(w_id).as_str());
    s.append(" already exists");
    s
}

/// "Cannot create warehouse, item id {item_id} does not exist"
pub open spec fn msg_create_warehouse_item_missing(item_id: int) -> Seq<char> {
    "Cannot create warehouse, item id "@ + dec_str(item_id) + " does not exist"@
}

/// Builds [`msg_create_warehouse_item_missing`].
pub fn build_create_warehouse_item_missing(item_id: i32) -> (r: String)
    ensures
        r@ == msg_create_warehouse_item_missing(item_id as int),
{
    let mut s = String::from_str("Cannot create warehouse, item id ");
    s.append(i32_string(item_id).as_str());
    s.append(" does not exist");
    s
}

/// "Cannot create warehouse, item id {item_id} already belongs to warehouse
/// id {w_id}"
pub open spec fn msg_create_warehouse_item_assigned(item_id: int, w_id: int) -> Seq<char> {
    "Cannot create warehouse, item id "@ + dec_str(item_id)
        + " already belongs to warehouse id "@ + dec_str(w_id)
}

/// Builds [`msg_create_warehouse_item_assigned`].
pub fn build_create_warehouse_item_assigned(item_id: i32, w_id: i32) -> (r: String)
    ensures
        r@ == msg_create_warehouse_item_assigned(item_id as int, w_id as int),
{
    let mut s = String::from_str("Cannot create warehouse, item id ");
    s.append(i32_string(item_id).as_str());
    s.append(" already belongs to warehouse id ");
    s.append(i32_string(w_id).as_str());
    s
}

/// "Warehouse id {w_id} lists an item more than once"
pub open spec fn msg_warehouse_list_duplicated(w_id: int) -> Seq<char> {
    "Warehouse id "@ + dec_str(w_id) + " lists an item more than once"@
}

/// Builds [`msg_warehouse_list_duplicated`].
pub fn build_warehouse_list_duplicated(w_id: i32) -> (r: String)
    ensures
        r@ == msg_warehouse_list_duplicated(w_id as int),
{
    let mut s = String::from_str("Warehouse id ");
    s.append(i32_string(w_id).as_str());
    s.append(" lists an item more than once");
    s
}

/// "Cannot update item {id} as it doesn't exist. Try creating the item
/// instead"
pub open spec fn msg_update_item_missing(id: int) -> Seq<char> {
    "Cannot update item "@ + dec_str(id) + " as it doesn't exist. Try creating the item instead"@
}

/// Builds [`msg_update_item_missing`].
pub fn build_update_item_missing(id: i32) -> (r: String)
    ensures
        r@ == msg_update_item_missing(id as int),
{
    let mut s = String::from_str("Cannot update item ");
    s.append(i32_string(id).as_str());
    s.append(" as it doesn't exist. Try creating the item instead");
    s
}

/// The fixed refusal of a warehouse change through a generic item update.
pub open spec fn msg_update_item_warehouse() -> Seq<char> {
    "Updating an item's warehouse is not supported, use the warehouse item add/remove endpoint"@
}

/// Builds [`msg_update_item_warehouse`].
pub fn build_update_item_warehouse() -> (r: String)
    ensures
        r@ == msg_update_item_warehouse(),
{
    String::from_str(
        "Updating an item's warehouse is not supported, use the warehouse item add/remove endpoint",
    )
}

/// The fixed refusal of a generic warehouse update.
pub open spec fn msg_update_warehouse_unsupported() -> Seq<char> {
    "Updating warehouses is not supported, to add and remove items use the respective endpoints"@
}

/// Builds [`msg_update_warehouse_unsupported`].
pub fn build_update_warehouse_unsupported() -> (r: String)
    ensures
        r@ == msg_update_warehouse_unsupported(),
{
    String::from_str(
        "Updating warehouses is not supported, to add and remove items use the respective endpoints",
    )
}

/// "Cannot get items for warehouse id {w_id}, as it does not exist"
pub open spec fn msg_warehouse_items_missing(w_id: int) -> Seq<char> {
    "Cannot get items for warehouse id "@ + dec_str(w_id) + ", as it does not exist"@
}

/// Builds [`msg_warehouse_items_missing`].
pub fn build_warehouse_items_missing(w_id: i32) -> (r: String)
    ensures
        r@ == msg_warehouse_items_missing(w_id as int),
{
    let mut s = String::from_str("Cannot get items for warehouse id ");
    s.append(i32_string(w_id).as_str());
    s.append(", as it does not exist");
    s
}

} // verus!
