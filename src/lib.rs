//! Stock reconciliation: compares a freshly observed stock snapshot of a
//! product with the stored records, applies the minimal set of writes and
//! classifies each variant as unchanged, created, updated or failed.
pub mod laws;
pub mod models;
pub mod reconcile;
pub mod store;
