//! Storefront service logic: decimal prices and their conversion to minor
//! currency units, checkout-session requests for the payment provider, the
//! replies of the two API endpoints, and the start-up settings.

pub mod price;
pub mod checkout;
pub mod catalog;
pub mod api;
pub mod config;
