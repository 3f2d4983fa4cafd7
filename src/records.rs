//! Rows of the tables that the store keeps.
//!
//! Identifiers are 128-bit values (the bits of a UUID), times are microseconds
//! since the Unix epoch, coordinates are in units of 10^-7 degrees, and
//! free-form metadata is JSON text.

use vstd::prelude::*;
use crate::kinds::{
    BusinessPromotionScope, BusinessPromotionStatus, BusinessPromotionType,
    BusinessVerificationStatus, LocationAdminRole, ReviewAction,
};

verus! {

/// A request of a business to be verified.
#[derive(Debug, Clone)]
pub struct BusinessRegistration {
    pub id: u128,
    pub user_id: u128,
    /// The approved business made from this registration, once there is one.
    pub business_id: Option<u128>,
    pub name: String,
    pub category: String,
    pub address: String,
    pub description: Option<String>,
    pub phone: Option<String>,
    pub website: Option<String>,
    pub tax_id: Option<String>,
    pub document_urls: Vec<String>,
    pub is_multi_user_team: bool,
    pub status: BusinessVerificationStatus,
    pub owner_email: String,
    pub owner_username: String,
    pub rejection_reason: Option<String>,
    pub reviewer_notes: Option<String>,
    pub reviewer_id: Option<u128>,
    pub reviewer_name: Option<String>,
    pub submitted_at: i64,
    pub updated_at: i64,
}

/// One entry of the audit trail of a registration; never changed once written.
#[derive(Debug, Clone)]
pub struct BusinessReviewEvent {
    pub id: u128,
    pub registration_id: u128,
    pub reviewer_id: Option<u128>,
    pub reviewer_name: Option<String>,
    pub action: ReviewAction,
    pub notes: Option<String>,
    pub rejection_reason: Option<String>,
    pub created_at: i64,
}

/// An approved business, made when its registration is first approved or
/// from a business payload.
#[derive(Debug, Clone)]
pub struct Business {
    pub id: u128,
    pub registration_id: Option<u128>,
    pub owner_user_id: u128,
    pub business_name: String,
    pub category: String,
    pub tax_id: Option<String>,
    pub description: Option<String>,
    pub website: Option<String>,
    pub logo_url: Option<String>,
    pub is_active: bool,
    pub metadata: String,
    pub created_at: i64,
    pub updated_at: i64,
}

/// A physical location (branch) of a registered business.
#[derive(Debug, Clone)]
pub struct BusinessLocation {
    pub id: u128,
    pub registration_id: u128,
    pub business_id: Option<u128>,
    pub label: String,
    pub formatted_address: String,
    pub street: Option<String>,
    pub city: Option<String>,
    pub state_region: Option<String>,
    pub postal_code: Option<String>,
    pub country: Option<String>,
    pub latitude_e7: Option<i64>,
    pub longitude_e7: Option<i64>,
    pub google_place_id: Option<String>,
    pub timezone: Option<String>,
    pub phone: Option<String>,
    pub is_primary: bool,
    pub notes: Option<String>,
    pub metadata: String,
    pub created_at: i64,
    pub updated_at: i64,
}

/// A promotion of a registered business.
#[derive(Debug, Clone)]
pub struct BusinessPromotion {
    pub id: u128,
    pub registration_id: u128,
    pub unit_id: Option<u128>,
    pub title: String,
    pub subtitle: Option<String>,
    pub description: Option<String>,
    pub promotion_type: BusinessPromotionType,
    pub scope: BusinessPromotionScope,
    pub status: BusinessPromotionStatus,
    pub image_url: Option<String>,
    pub prize: Option<String>,
    pub reward_points: i32,
    pub discount_percent: Option<i32>,
    pub max_claims: Option<i32>,
    pub per_user_limit: Option<i32>,
    pub total_claims: i32,
    pub requires_check_in: bool,
    pub requires_purchase: bool,
    pub terms: Option<String>,
    pub metadata: String,
    pub starts_at: i64,
    pub ends_at: i64,
    pub published_at: Option<i64>,
    pub created_by: Option<u128>,
    pub updated_by: Option<u128>,
    pub created_at: i64,
    pub updated_at: i64,
}

/// A row of the join between a location-scoped promotion and one location.
#[derive(Debug, Clone, Copy, PartialEq, Eq, Structural)]
pub struct PromotionLocation {
    pub promotion_id: u128,
    pub location_id: u128,
}

/// A company that groups business units.
#[derive(Debug, Clone)]
pub struct BusinessCompany {
    pub id: u128,
    pub owner_user_id: u128,
    pub company_name: String,
    pub tax_id: Option<String>,
    pub legal_entity_type: Option<String>,
    pub is_active: bool,
    pub metadata: String,
    pub created_at: i64,
    pub updated_at: i64,
}

/// A unit of a company, optionally tied to a registration.
#[derive(Debug, Clone)]
pub struct BusinessUnit {
    pub id: u128,
    pub company_id: u128,
    pub registration_id: Option<u128>,
    pub business_id: Option<u128>,
    pub unit_name: String,
    pub category: String,
    pub is_primary: bool,
    pub is_active: bool,
    pub metadata: String,
    pub created_at: i64,
    pub updated_at: i64,
}

/// A grant of a role over a location to a user; withdrawn by clearing `is_active`.
#[derive(Debug, Clone)]
pub struct LocationAdmin {
    pub id: u128,
    pub location_id: u128,
    pub user_id: u128,
    pub user_email: String,
    pub user_username: String,
    pub role: LocationAdminRole,
    pub granted_by: Option<u128>,
    pub granted_by_username: Option<String>,
    pub is_active: bool,
    pub granted_at: i64,
    pub created_at: i64,
    pub updated_at: i64,
}

/// Counts shown on the review dashboard.
#[derive(Debug, Clone, Copy, PartialEq, Eq, Structural)]
pub struct ReviewStats {
    pub pending: i64,
    pub under_review: i64,
    pub approved_today: i64,
    pub rejected_today: i64,
}

/// A copy of an optional text.
pub fn copy_text(o: &Option<String>) -> (r: Option<String>)
    ensures
        r == *o,
{
    match o {
        Some(s) => Some(s.clone()),
        None => None,
    }
}

} // verus!
