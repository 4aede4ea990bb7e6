//! An inventory-management core: `InventoryItem` and `Warehouse` records
//! kept in an in-memory record store, with verified maintenance of the
//! bidirectional relationship between an item's `warehouse` field and a
//! warehouse's `items` list.
//!
//! The relationship invariant — an item claims a warehouse if and only if
//! that warehouse exists and lists the item — is stated in
//! [`store::StoreView::consistent`]; every operation of [`service`] is
//! proved to preserve it, and to leave the store untouched when it fails.

pub mod api;
pub mod csv;
pub mod decimal;
pub mod messages;
pub mod models;
pub mod service;
pub mod store;
