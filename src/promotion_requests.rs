//! Promotion payloads: field rules, business rules and the records they become.

use vstd::prelude::*;
use crate::errors::{Field, ValidationError};
use crate::kinds::{BusinessPromotionScope, BusinessPromotionStatus, BusinessPromotionType};
use crate::outside::{now_micros, random_id};
use crate::records::{copy_text, BusinessPromotion};
use crate::requests::{
    chars_within, metadata_or_empty, opt_chars_within, opt_in_range, opt_number_within,
    opt_text_within, text_within,
};

verus! {

/// The editable fields of a promotion, as a create or an update payload gives them.
#[derive(Debug, Clone)]
pub struct PromotionFields {
    pub title: String,
    pub subtitle: Option<String>,
    pub description: Option<String>,
    pub promotion_type: BusinessPromotionType,
    pub scope: BusinessPromotionScope,
    pub unit_id: Option<u128>,
    pub image_url: Option<String>,
    pub prize: Option<String>,
    pub reward_points: i32,
    pub discount_percent: Option<i32>,
    pub max_claims: Option<i32>,
    pub per_user_limit: Option<i32>,
    pub requires_check_in: bool,
    pub requires_purchase: bool,
    pub terms: Option<String>,
    pub metadata: Option<String>,
    pub starts_at: i64,
    pub ends_at: i64,
    pub location_ids: Vec<u128>,
}

/// The first field rule the fields break, in declaration order.
pub open spec fn promotion_fields_problem(f: PromotionFields) -> Option<ValidationError> {
    if !chars_within(f.title@, 3, 120) {
        Some(ValidationError::Length(Field::Title))
    } else if !opt_chars_within(f.subtitle, 0, 160) {
        Some(ValidationError::Length(Field::Subtitle))
    } else if !opt_chars_within(f.description, 0, 4000) {
        Some(ValidationError::Length(Field::Description))
    } else if !opt_chars_within(f.image_url, 0, 1024) {
        Some(ValidationError::Length(Field::ImageUrl))
    } else if !opt_chars_within(f.prize, 0, 1024) {
        Some(ValidationError::Length(Field::Prize))
    } else if !(0 <= f.reward_points && f.reward_points <= 10000) {
        Some(ValidationError::Range(Field::RewardPoints))
    } else if !opt_in_range(f.discount_percent, 0, 100) {
        Some(ValidationError::Range(Field::DiscountPercent))
    } else if !opt_in_range(f.max_claims, 1, 1000000) {
        Some(ValidationError::Range(Field::MaxClaims))
    } else if !opt_in_range(f.per_user_limit, 1, 10000) {
        Some(ValidationError::Range(Field::PerUserLimit))
    } else if !opt_chars_within(f.terms, 0, 4000) {
        Some(ValidationError::Length(Field::Terms))
    } else {
        None
    }
}

/// The first business rule the fields break: the end comes after the start, a
/// discount belongs to a discount promotion and lies in 0..=100, a contest names
/// its prize, and a location-scoped promotion names at least one location.
pub open spec fn promotion_rules_problem(f: PromotionFields) -> Option<ValidationError> {
    if f.ends_at <= f.starts_at {
        Some(ValidationError::EndsNotAfterStart)
    } else if f.discount_percent is Some && f.promotion_type != BusinessPromotionType::Discount {
        Some(ValidationError::DiscountNotApplicable)
    } else if f.discount_percent is Some && !(0 <= f.discount_percent->0 && f.discount_percent->0 <= 100) {
        Some(ValidationError::DiscountOutOfRange)
    } else if f.promotion_type == BusinessPromotionType::Contest && f.prize is None {
        Some(ValidationError::ContestWithoutPrize)
    } else if f.scope == BusinessPromotionScope::Location && f.location_ids@.len() == 0 {
        Some(ValidationError::LocationsRequired)
    } else {
        None
    }
}

/// Field rules first, then business rules.
pub open spec fn promotion_problem(f: PromotionFields) -> Option<ValidationError> {
    match promotion_fields_problem(f) {
        Some(e) => Some(e),
        None => promotion_rules_problem(f),
    }
}

pub open spec fn as_result(p: Option<ValidationError>) -> Result<(), ValidationError> {
    match p {
        Some(e) => Err(e),
        None => Ok(()),
    }
}

/// A promotion starting after `now` is scheduled; any other is active.
pub open spec fn status_at(starts_at: i64, now: i64) -> BusinessPromotionStatus {
    if starts_at > now {
        BusinessPromotionStatus::Scheduled
    } else {
        BusinessPromotionStatus::Active
    }
}

/// The status a new promotion gets when it is created at `now`.
pub fn promotion_status_at(starts_at: i64, now: i64) -> (r: BusinessPromotionStatus)
    ensures
        r == status_at(starts_at, now),
{
    if starts_at > now {
        BusinessPromotionStatus::Scheduled
    } else {
        BusinessPromotionStatus::Active
    }
}

impl PromotionFields {
    /// Checks the field rules: text lengths and number ranges.
    pub fn validate(&self) -> (r: Result<(), ValidationError>)
        ensures
            r == as_result(promotion_fields_problem(*self)),
    {
        if !text_within(&self.title, 3, 120) {
            Err(ValidationError::Length(Field::Title))
        } else if !opt_text_within(&self.subtitle, 0, 160) {
            Err(ValidationError::Length(Field::Subtitle))
        } else if !opt_text_within(&self.description, 0, 4000) {
            Err(ValidationError::Length(Field::Description))
        } else if !opt_text_within(&self.image_url, 0, 1024) {
            Err(ValidationError::Length(Field::ImageUrl))
        } else if !opt_text_within(&self.prize, 0, 1024) {
            Err(ValidationError::Length(Field::Prize))
        } else if !(0 <= self.reward_points && self.reward_points <= 10000) {
            Err(ValidationError::Range(Field::RewardPoints))
        } else if !opt_number_within(self.discount_percent, 0, 100) {
            Err(ValidationError::Range(Field::DiscountPercent))
        } else if !opt_number_within(self.max_claims, 1, 1000000) {
            Err(ValidationError::Range(Field::MaxClaims))
        } else if !opt_number_within(self.per_user_limit, 1, 10000) {
            Err(ValidationError::Range(Field::PerUserLimit))
        } else if !opt_text_within(&self.terms, 0, 4000) {
            Err(ValidationError::Length(Field::Terms))
        } else {
            Ok(())
        }
    }

    /// Checks the rules that relate fields to each other.
    pub fn validate_business_rules(&self) -> (r: Result<(), ValidationError>)
        ensures
            r == as_result(promotion_rules_problem(*self)),
    {
        if self.ends_at <= self.starts_at {
            return Err(ValidationError::EndsNotAfterStart);
        }
        if let Some(discount) = self.discount_percent {
            if !matches!(self.promotion_type, BusinessPromotionType::Discount) {
                return Err(ValidationError::DiscountNotApplicable);
            }
            if !(0 <= discount && discount <= 100) {
                return Err(ValidationError::DiscountOutOfRange);
            }
        }
        if matches!(self.promotion_type, BusinessPromotionType::Contest) && self.prize.is_none() {
            return Err(ValidationError::ContestWithoutPrize);
        }
        if matches!(self.scope, BusinessPromotionScope::Location) && self.location_ids.len() == 0 {
            return Err(ValidationError::LocationsRequired);
        }
        Ok(())
    }

    /// Checks the field rules, then the business rules.
    pub fn check(&self) -> (r: Result<(), ValidationError>)
        ensures
            r == as_result(promotion_problem(*self)),
    {
        match self.validate() {
            Err(e) => Err(e),
            Ok(()) => self.validate_business_rules(),
        }
    }
}

/// Payload of a new promotion.
#[derive(Debug, Clone)]
pub struct CreatePromotionRequest {
    pub fields: PromotionFields,
}

/// `p` is the promotion that `f` describes, created for `registration_id` by
/// `actor_id` at `now`.
pub open spec fn promotion_from_fields(
    p: BusinessPromotion,
    f: PromotionFields,
    registration_id: u128,
    actor_id: Option<u128>,
    now: i64,
) -> bool {
    &&& p.registration_id == registration_id
    &&& p.unit_id == f.unit_id
    &&& p.title == f.title
    &&& p.subtitle == f.subtitle
    &&& p.description == f.description
    &&& p.promotion_type == f.promotion_type
    &&& p.scope == f.scope
    &&& p.status == status_at(f.starts_at, now)
    &&& p.image_url == f.image_url
    &&& p.prize == f.prize
    &&& p.reward_points == f.reward_points
    &&& p.discount_percent == f.discount_percent
    &&& p.max_claims == f.max_claims
    &&& p.per_user_limit == f.per_user_limit
    &&& p.total_claims == 0
    &&& p.requires_check_in == f.requires_check_in
    &&& p.requires_purchase == f.requires_purchase
    &&& p.terms == f.terms
    &&& p.metadata@ == metadata_or_empty(f.metadata)
    &&& p.starts_at == f.starts_at
    &&& p.ends_at == f.ends_at
    &&& p.published_at is None
    &&& p.created_by == actor_id
    &&& p.updated_by == actor_id
    &&& p.created_at == now
    &&& p.updated_at == now
}

impl CreatePromotionRequest {
    /// The first rule the payload breaks: field rules first, then the rules
    /// that relate fields to each other.
    pub open spec fn problem(&self) -> Option<ValidationError> {
        promotion_problem(self.fields)
    }

    /// Checks the field rules: text lengths and number ranges.
    pub fn validate(&self) -> (r: Result<(), ValidationError>)
        ensures
            r == as_result(promotion_fields_problem(self.fields)),
    {
        self.fields.validate()
    }

    /// Checks only the rules that relate fields to each other: the dates, the
    /// discount, the contest prize and the locations of a location scope.
    pub fn validate_business_rules(&self) -> (r: Result<(), ValidationError>)
        ensures
            r == as_result(promotion_rules_problem(self.fields)),
    {
        self.fields.validate_business_rules()
    }

    /// Checks the field rules, then the business rules.
    pub fn check(&self) -> (r: Result<(), ValidationError>)
        ensures
            r == as_result(self.problem()),
    {
        self.fields.check()
    }

    /// The promotion as created at `now`, with its status derived from `now`,
    /// and the location identifiers it names.
    pub fn into_promotion_at(self, id: u128, registration_id: u128, actor_id: Option<u128>, now: i64) -> (r: (
        BusinessPromotion,
        Vec<u128>,
    ))
        ensures
            r.0.id == id,
            promotion_from_fields(r.0, self.fields, registration_id, actor_id, now),
            r.1 == self.fields.location_ids,
    {
        let f = self.fields;
        let metadata = match f.metadata {
            Some(m) => m,
            None => "{}".to_owned(),
        };
        let promotion = BusinessPromotion {
            id,
            registration_id,
            unit_id: f.unit_id,
            title: f.title,
            subtitle: f.subtitle,
            description: f.description,
            promotion_type: f.promotion_type,
            scope: f.scope,
            status: promotion_status_at(f.starts_at, now),
            image_url: f.image_url,
            prize: f.prize,
            reward_points: f.reward_points,
            discount_percent: f.discount_percent,
            max_claims: f.max_claims,
            per_user_limit: f.per_user_limit,
            total_claims: 0,
            requires_check_in: f.requires_check_in,
            requires_purchase: f.requires_purchase,
            terms: f.terms,
            metadata,
            starts_at: f.starts_at,
            ends_at: f.ends_at,
            published_at: None,
            created_by: actor_id,
            updated_by: actor_id,
            created_at: now,
            updated_at: now,
        };
        (promotion, f.location_ids)
    }

    /// The promotion as created now, under a fresh random identifier.
    pub fn into_new_promotion(self, registration_id: u128, actor_id: Option<u128>) -> (r: (
        BusinessPromotion,
        Vec<u128>,
    ))
        ensures
            promotion_from_fields(r.0, self.fields, registration_id, actor_id, r.0.created_at),
            r.1 == self.fields.location_ids,
    {
        let now = now_micros();
        let id = random_id();
        self.into_promotion_at(id, registration_id, actor_id, now)
    }
}

/// Payload that replaces the editable fields of a promotion.
#[derive(Debug, Clone)]
pub struct UpdatePromotionRequest {
    pub fields: PromotionFields,
    pub status: BusinessPromotionStatus,
    pub published_at: Option<i64>,
}

/// `new` is `old` with the fields of `req` written over it by `actor_id` at
/// `now`; the identity, the registration, the claims and the creation stay.
pub open spec fn promotion_updated(
    old: BusinessPromotion,
    new: BusinessPromotion,
    req: UpdatePromotionRequest,
    actor_id: Option<u128>,
    now: i64,
) -> bool {
    let f = req.fields;
    &&& new.id == old.id
    &&& new.registration_id == old.registration_id
    &&& new.unit_id == f.unit_id
    &&& new.title == f.title
    &&& new.subtitle == f.subtitle
    &&& new.description == f.description
    &&& new.promotion_type == f.promotion_type
    &&& new.scope == f.scope
    &&& new.status == req.status
    &&& new.image_url == f.image_url
    &&& new.prize == f.prize
    &&& new.reward_points == f.reward_points
    &&& new.discount_percent == f.discount_percent
    &&& new.max_claims == f.max_claims
    &&& new.per_user_limit == f.per_user_limit
    &&& new.total_claims == old.total_claims
    &&& new.requires_check_in == f.requires_check_in
    &&& new.requires_purchase == f.requires_purchase
    &&& new.terms == f.terms
    &&& new.metadata == (match f.metadata {
        Some(m) => m,
        None => old.metadata,
    })
    &&& new.starts_at == f.starts_at
    &&& new.ends_at == f.ends_at
    &&& new.published_at == req.published_at
    &&& new.created_by == old.created_by
    &&& new.updated_by == actor_id
    &&& new.created_at == old.created_at
    &&& new.updated_at == now
}

impl UpdatePromotionRequest {
    /// The first rule the payload breaks: field rules first, then the rules
    /// that relate fields to each other.
    pub open spec fn problem(&self) -> Option<ValidationError> {
        promotion_problem(self.fields)
    }

    /// Checks the field rules: text lengths and number ranges.
    pub fn validate(&self) -> (r: Result<(), ValidationError>)
        ensures
            r == as_result(promotion_fields_problem(self.fields)),
    {
        self.fields.validate()
    }

    /// Checks only the rules that relate fields to each other: the dates, the
    /// discount, the contest prize and the locations of a location scope.
    pub fn validate_business_rules(&self) -> (r: Result<(), ValidationError>)
        ensures
            r == as_result(promotion_rules_problem(self.fields)),
    {
        self.fields.validate_business_rules()
    }

    /// Checks the field rules, then the business rules.
    pub fn check(&self) -> (r: Result<(), ValidationError>)
        ensures
            r == as_result(self.problem()),
    {
        self.fields.check()
    }

    /// Writes the payload over `existing`.  The status is the one the payload
    /// gives; it is not derived again from the time.
    pub fn apply_to_existing(&self, existing: &mut BusinessPromotion, actor_id: Option<u128>, now: i64)
        ensures
            promotion_updated(*old(existing), *final(existing), *self, actor_id, now),
    {
        let f = &self.fields;
        existing.unit_id = f.unit_id;
        existing.title = f.title.clone();
        existing.subtitle = copy_text(&f.subtitle);
        existing.description = copy_text(&f.description);
        existing.promotion_type = f.promotion_type;
        existing.scope = f.scope;
        existing.status = self.status;
        existing.image_url = copy_text(&f.image_url);
        existing.prize = copy_text(&f.prize);
        existing.reward_points = f.reward_points;
        existing.discount_percent = f.discount_percent;
        existing.max_claims = f.max_claims;
        existing.per_user_limit = f.per_user_limit;
        existing.requires_check_in = f.requires_check_in;
        existing.requires_purchase = f.requires_purchase;
        existing.terms = copy_text(&f.terms);
        match &f.metadata {
            Some(m) => {
                existing.metadata = m.clone();
            },
            None => {},
        }
        existing.starts_at = f.starts_at;
        existing.ends_at = f.ends_at;
        existing.published_at = self.published_at;
        existing.updated_by = actor_id;
        existing.updated_at = now;
    }
}

} // verus!
