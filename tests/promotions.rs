use business_review::errors::{Field, Missing, ServiceError, ValidationError};
use business_review::kinds::{
    BusinessPromotionScope, BusinessPromotionStatus, BusinessPromotionType,
};
use business_review::promotion_requests::{
    promotion_status_at, CreatePromotionRequest, PromotionFields,
    UpdatePromotionRequest,
};
use business_review::promotions::dedupe_ids;
use business_review::requests::{CreateLocationRequest, CreateBusinessRegistrationRequest};
use business_review::store::Store;

fn location(label: &str) -> CreateLocationRequest {
    CreateLocationRequest {
        label: label.to_string(),
        formatted_address: "Calle Real 100".to_string(),
        street: None,
        city: None,
        state_region: None,
        postal_code: None,
        country: None,
        latitude_e7: None,
        longitude_e7: None,
        google_place_id: None,
        timezone: None,
        phone: None,
        is_primary: false,
        notes: None,
        metadata: None,
    }
}

fn register(store: &mut Store, user: u128) -> u128 {
    let req = CreateBusinessRegistrationRequest {
        user_id: user,
        name: "Panaderia Sol".to_string(),
        category: "bakery".to_string(),
        address: "Calle Real 100".to_string(),
        description: None,
        phone: None,
        website: None,
        tax_id: None,
        document_urls: vec!["https://docs.example.com/a.pdf".to_string()],
        is_multi_user_team: false,
        owner_email: "sol@example.com".to_string(),
        owner_username: "solbakery".to_string(),
        locations: vec![location("North"), location("South")],
    };
    store.submit_registration(req).unwrap()
}

fn fields(kind: BusinessPromotionType, scope: BusinessPromotionScope, ids: Vec<u128>) -> PromotionFields {
    PromotionFields {
        title: "Two for one".to_string(),
        subtitle: None,
        description: None,
        promotion_type: kind,
        scope,
        unit_id: None,
        image_url: None,
        prize: None,
        reward_points: 10,
        discount_percent: None,
        max_claims: None,
        per_user_limit: None,
        requires_check_in: false,
        requires_purchase: false,
        terms: None,
        metadata: None,
        starts_at: 1_000,
        ends_at: 2_000,
        location_ids: ids,
    }
}

fn location_ids(store: &Store, reg: u128) -> Vec<u128> {
    store.list_locations_for_registration(reg).iter().map(|l| l.id).collect()
}

#[test]
fn discount_over_hundred_refused() {
    let mut store = Store::new();
    let reg = register(&mut store, 1);
    let mut f = fields(BusinessPromotionType::Discount, BusinessPromotionScope::Business, vec![]);
    f.discount_percent = Some(150);
    let r = store.add_promotion(reg, CreatePromotionRequest { fields: f }, Some(5));
    assert_eq!(r, Err(ServiceError::Validation(ValidationError::Range(Field::DiscountPercent))));
    assert_eq!(store.promotions.len(), 0);
}

#[test]
fn contest_without_prize_refused() {
    let mut store = Store::new();
    let reg = register(&mut store, 1);
    let f = fields(BusinessPromotionType::Contest, BusinessPromotionScope::Business, vec![]);
    let r = store.add_promotion(reg, CreatePromotionRequest { fields: f }, Some(5));
    assert_eq!(r, Err(ServiceError::Validation(ValidationError::ContestWithoutPrize)));
    assert_eq!(store.promotions.len(), 0);
}

#[test]
fn business_rules_in_order() {
    let mut f = fields(BusinessPromotionType::Event, BusinessPromotionScope::Business, vec![]);
    f.ends_at = f.starts_at;
    assert_eq!(f.validate_business_rules(), Err(ValidationError::EndsNotAfterStart));
    let mut f = fields(BusinessPromotionType::Event, BusinessPromotionScope::Business, vec![]);
    f.discount_percent = Some(20);
    assert_eq!(f.validate_business_rules(), Err(ValidationError::DiscountNotApplicable));
    let mut f = fields(BusinessPromotionType::Discount, BusinessPromotionScope::Business, vec![]);
    f.discount_percent = Some(101);
    assert_eq!(f.validate_business_rules(), Err(ValidationError::DiscountOutOfRange));
    let f = fields(BusinessPromotionType::Challenge, BusinessPromotionScope::Location, vec![]);
    assert_eq!(f.validate_business_rules(), Err(ValidationError::LocationsRequired));
    let mut f = fields(BusinessPromotionType::Contest, BusinessPromotionScope::Business, vec![]);
    f.prize = Some("A cake".to_string());
    assert_eq!(f.check(), Ok(()));
}

#[test]
fn field_ranges() {
    let mut f = fields(BusinessPromotionType::Event, BusinessPromotionScope::Business, vec![]);
    f.reward_points = 10_001;
    assert_eq!(f.validate(), Err(ValidationError::Range(Field::RewardPoints)));
    let mut f = fields(BusinessPromotionType::Event, BusinessPromotionScope::Business, vec![]);
    f.title = "ab".to_string();
    assert_eq!(f.validate(), Err(ValidationError::Length(Field::Title)));
    let mut f = fields(BusinessPromotionType::Event, BusinessPromotionScope::Business, vec![]);
    f.max_claims = Some(0);
    assert_eq!(f.validate(), Err(ValidationError::Range(Field::MaxClaims)));
}

#[test]
fn location_promotion_binds_deduplicated_ids() {
    let mut store = Store::new();
    let reg = register(&mut store, 1);
    let ids = location_ids(&store, reg);
    let f = fields(
        BusinessPromotionType::Event,
        BusinessPromotionScope::Location,
        vec![ids[1], ids[0], ids[1]],
    );
    let pid = store.add_promotion(reg, CreatePromotionRequest { fields: f }, Some(5)).unwrap();
    assert_eq!(store.promotion_location_ids(pid), vec![ids[1], ids[0]]);
    let p = &store.promotions[0];
    assert_eq!(p.created_by, Some(5));
    assert_eq!(p.total_claims, 0);
    assert_eq!(p.metadata, "{}");
}

#[test]
fn foreign_location_refused_on_create() {
    let mut store = Store::new();
    let mine = register(&mut store, 1);
    let other = register(&mut store, 2);
    let foreign = location_ids(&store, other)[0];
    let own = location_ids(&store, mine)[0];
    let rows_before = store.promotion_locations.clone();
    let f = fields(BusinessPromotionType::Event, BusinessPromotionScope::Location, vec![own, foreign]);
    let r = store.add_promotion(mine, CreatePromotionRequest { fields: f }, None);
    assert_eq!(r, Err(ServiceError::NotFound(Missing::Location)));
    assert_eq!(store.promotions.len(), 0);
    assert_eq!(store.promotion_locations, rows_before);
}

#[test]
fn foreign_location_refused_on_update() {
    let mut store = Store::new();
    let mine = register(&mut store, 1);
    let other = register(&mut store, 2);
    let own = location_ids(&store, mine);
    let foreign = location_ids(&store, other)[0];
    let f = fields(BusinessPromotionType::Event, BusinessPromotionScope::Location, vec![own[0]]);
    let pid = store.add_promotion(mine, CreatePromotionRequest { fields: f }, None).unwrap();
    let rows_before = store.promotion_locations.clone();
    let update = UpdatePromotionRequest {
        fields: fields(BusinessPromotionType::Event, BusinessPromotionScope::Location, vec![own[1], foreign]),
        status: BusinessPromotionStatus::Active,
        published_at: None,
    };
    let r = store.update_promotion(mine, pid, update, Some(3), 50);
    assert_eq!(r, Err(ServiceError::NotFound(Missing::Location)));
    assert_eq!(store.promotion_locations, rows_before);
    assert_eq!(store.promotion_location_ids(pid), vec![own[0]]);
}

#[test]
fn update_replaces_bindings_and_keeps_given_status() {
    let mut store = Store::new();
    let reg = register(&mut store, 1);
    let ids = location_ids(&store, reg);
    let f = fields(BusinessPromotionType::Event, BusinessPromotionScope::Location, vec![ids[0]]);
    let pid = store.add_promotion(reg, CreatePromotionRequest { fields: f }, None).unwrap();
    let mut newf = fields(BusinessPromotionType::Event, BusinessPromotionScope::Location, vec![ids[1]]);
    newf.title = "Happy hour".to_string();
    let update = UpdatePromotionRequest {
        fields: newf,
        status: BusinessPromotionStatus::Cancelled,
        published_at: Some(42),
    };
    store.update_promotion(reg, pid, update, Some(9), 60).unwrap();
    assert_eq!(store.promotion_location_ids(pid), vec![ids[1]]);
    let p = &store.promotions[0];
    assert_eq!(p.title, "Happy hour");
    assert_eq!(p.status, BusinessPromotionStatus::Cancelled);
    assert_eq!(p.updated_by, Some(9));
    assert_eq!(p.updated_at, 60);
}

#[test]
fn business_scope_has_no_bindings() {
    let mut store = Store::new();
    let reg = register(&mut store, 1);
    let ids = location_ids(&store, reg);
    let f = fields(BusinessPromotionType::Event, BusinessPromotionScope::Business, ids);
    let pid = store.add_promotion(reg, CreatePromotionRequest { fields: f }, None).unwrap();
    assert!(store.promotion_location_ids(pid).is_empty());
}

#[test]
fn delete_promotion_removes_bindings() {
    let mut store = Store::new();
    let reg = register(&mut store, 1);
    let ids = location_ids(&store, reg);
    let f = fields(BusinessPromotionType::Event, BusinessPromotionScope::Location, ids);
    let pid = store.add_promotion(reg, CreatePromotionRequest { fields: f }, None).unwrap();
    store.delete_promotion(reg, pid).unwrap();
    assert!(store.promotions.is_empty());
    assert!(store.promotion_locations.is_empty());
    assert_eq!(store.delete_promotion(reg, pid), Err(ServiceError::NotFound(Missing::Promotion)));
}

#[test]
fn deleting_location_drops_its_bindings() {
    let mut store = Store::new();
    let reg = register(&mut store, 1);
    let ids = location_ids(&store, reg);
    let f = fields(BusinessPromotionType::Event, BusinessPromotionScope::Location, ids.clone());
    let pid = store.add_promotion(reg, CreatePromotionRequest { fields: f }, None).unwrap();
    store.delete_location(reg, ids[1]).unwrap();
    assert_eq!(store.promotion_location_ids(pid), vec![ids[0]]);
}

#[test]
fn status_from_start_time() {
    assert_eq!(promotion_status_at(10, 5), BusinessPromotionStatus::Scheduled);
    assert_eq!(promotion_status_at(10, 10), BusinessPromotionStatus::Active);
    assert_eq!(promotion_status_at(10, 11), BusinessPromotionStatus::Active);
}

#[test]
fn created_promotion_status_follows_clock() {
    let req = CreatePromotionRequest {
        fields: fields(BusinessPromotionType::Event, BusinessPromotionScope::Business, vec![]),
    };
    let (p, _) = req.into_promotion_at(77, 3, None, 500);
    assert_eq!(p.status, BusinessPromotionStatus::Scheduled);
    assert_eq!(p.id, 77);
    let req = CreatePromotionRequest {
        fields: fields(BusinessPromotionType::Event, BusinessPromotionScope::Business, vec![]),
    };
    let (p, _) = req.into_new_promotion(3, None);
    assert_eq!(p.status, BusinessPromotionStatus::Active);
}

#[test]
fn dedupe_keeps_first_occurrences() {
    assert_eq!(dedupe_ids(&vec![3, 1, 3, 2, 1]), vec![3, 1, 2]);
    assert_eq!(dedupe_ids(&vec![]), Vec::<u128>::new());
}

#[test]
fn promotion_read_with_locations() {
    let mut store = Store::new();
    let reg = register(&mut store, 1);
    let ids = location_ids(&store, reg);
    let f = fields(BusinessPromotionType::Event, BusinessPromotionScope::Location, vec![ids[1]]);
    let pid = store.add_promotion(reg, CreatePromotionRequest { fields: f }, None).unwrap();
    let f = fields(BusinessPromotionType::Event, BusinessPromotionScope::Business, vec![]);
    store.add_promotion(reg, CreatePromotionRequest { fields: f }, None).unwrap();
    assert_eq!(store.list_promotions_for_registration(reg).len(), 2);
    assert_eq!(store.list_promotions_for_registration(reg)[0].id, pid);
    let (p, locs) = store.get_promotion_with_locations(reg, pid).unwrap();
    assert_eq!(p.id, pid);
    assert_eq!(locs.len(), 1);
    assert_eq!(locs[0].id, ids[1]);
    assert!(store.get_promotion_with_locations(12345, pid).is_none());
}

#[test]
fn promotion_locations_primary_first() {
    let mut store = Store::new();
    let reg = register(&mut store, 1);
    let ids = location_ids(&store, reg);
    let second = ids[1];
    let update = business_review::requests::UpdateLocationRequest {
        label: "South".to_string(),
        formatted_address: "Calle Real 100".to_string(),
        street: None,
        city: None,
        state_region: None,
        postal_code: None,
        country: None,
        latitude_e7: None,
        longitude_e7: None,
        google_place_id: None,
        timezone: None,
        phone: None,
        is_primary: true,
        notes: None,
        metadata: None,
    };
    store.update_location(reg, second, update, 9).unwrap();
    let f = fields(BusinessPromotionType::Event, BusinessPromotionScope::Location, vec![ids[0], ids[1]]);
    let pid = store.add_promotion(reg, CreatePromotionRequest { fields: f }, None).unwrap();
    let (_, locs) = store.get_promotion_with_locations(reg, pid).unwrap();
    let order: Vec<u128> = locs.iter().map(|l| l.id).collect();
    assert_eq!(order, vec![second, ids[0]]);
}

#[test]
fn payload_rule_checks_kept_apart() {
    let mut f = fields(BusinessPromotionType::Discount, BusinessPromotionScope::Business, vec![]);
    f.discount_percent = Some(150);
    let req = CreatePromotionRequest { fields: f };
    assert_eq!(req.validate(), Err(ValidationError::Range(Field::DiscountPercent)));
    assert_eq!(req.validate_business_rules(), Err(ValidationError::DiscountOutOfRange));
    assert_eq!(req.check(), Err(ValidationError::Range(Field::DiscountPercent)));
}
