//! Business registration and review workflow.
//!
//! Businesses submit registrations, administrators move them through a status
//! state machine with an append-only audit trail, and registered businesses
//! manage their locations, promotions, companies and business units.  The
//! [`store::Store`] holds every table in memory and applies each operation as
//! one all-or-nothing transaction.

mod outside;

pub mod errors;
pub mod kinds;
pub mod records;
pub mod requests;
pub mod promotion_requests;
pub mod store;
pub mod locations;
pub mod promotions;
pub mod units;
pub mod queries;
pub mod admins;
pub mod laws;
pub mod paging;
