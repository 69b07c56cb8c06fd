//! The product catalogue's data.

use crate::price::Price;
use vstd::prelude::*;

verus! {

/// A stored product.
pub struct Product {
    /// Assigned by storage on creation; never changes.
    pub id: i64,
    pub name: String,
    /// Non-negative amount in major currency units.
    pub price: Price,
    /// Seconds since the epoch; never changes.
    pub created_at: i64,
}

/// Reading the catalogue from storage failed.
pub struct StorageError {
    /// What storage reported; kept for the service's log, never sent to a
    /// client.
    pub detail: String,
}

} // verus!
