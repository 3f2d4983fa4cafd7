use business_review::admins::AddLocationAdminRequest;
use business_review::errors::{Field, Missing, ServiceError, ValidationError};
use business_review::kinds::{
    BusinessPromotionScope, BusinessPromotionStatus, BusinessPromotionType,
    BusinessVerificationStatus, LocationAdminRole, ReviewAction,
};
use business_review::paging::{
    actor_from_parsed, extract_actor_headers, normalize_base_url, ActorHeaderError, PaginationQuery,
};
use business_review::requests::{
    check_review, CreateBusinessRegistrationRequest, CreateBusinessRequest, CreateLocationRequest,
    ReviewActionRequest,
};
use business_review::store::Store;
use business_review::units::{CreateBusinessUnitRequest, CreateCompanyRequest};

#[test]
fn base_url_normalized() {
    assert_eq!(normalize_base_url("http://localhost:8083"), "http://localhost:8083/api/v1");
    assert_eq!(normalize_base_url("http://localhost:8083///"), "http://localhost:8083/api/v1");
    assert_eq!(normalize_base_url("http://stories/api/v1/"), "http://stories/api/v1");
    assert_eq!(normalize_base_url("http://stories/api/v1"), "http://stories/api/v1");
    assert_eq!(normalize_base_url(""), "/api/v1");
}

#[test]
fn pagination_defaults_and_bounds() {
    assert_eq!(PaginationQuery { limit: None, offset: None }.resolve(), (50, 0));
    assert_eq!(PaginationQuery { limit: Some(0), offset: Some(-4) }.resolve(), (1, 0));
    assert_eq!(PaginationQuery { limit: Some(500), offset: Some(20) }.resolve(), (100, 20));
    assert_eq!(PaginationQuery { limit: Some(30), offset: None }.resolve(), (30, 0));
}

#[test]
fn actor_headers_read() {
    let id = "67e55044-10b1-426f-9247-bb680e5fe0c8";
    let r = extract_actor_headers(Some(id), Some("maria"));
    assert_eq!(r, Ok((0x67e5504410b1426f9247bb680e5fe0c8, "maria".to_string())));
    assert_eq!(extract_actor_headers(Some("nope"), Some("maria")), Err(ActorHeaderError::MissingActorId));
    assert_eq!(extract_actor_headers(None, Some("maria")), Err(ActorHeaderError::MissingActorId));
    assert_eq!(extract_actor_headers(Some(id), None), Err(ActorHeaderError::MissingActorName));
    assert_eq!(actor_from_parsed(Some(5), Some("x")), Ok((5, "x".to_string())));
}

#[test]
fn review_check_given_trimmed_name() {
    assert_eq!(check_review(ReviewAction::Reject, false, Some(1), Some("a")), Err(ValidationError::RejectionReasonRequired));
    assert_eq!(check_review(ReviewAction::Approve, false, Some(1), Some("")), Err(ValidationError::ReviewerRequired));
    assert_eq!(check_review(ReviewAction::Approve, false, None, Some("a")), Err(ValidationError::ReviewerRequired));
    assert_eq!(check_review(ReviewAction::Approve, false, Some(1), Some("a")), Ok(()));
}

#[test]
fn transition_table() {
    assert!(BusinessVerificationStatus::Pending.can_transition_to(BusinessVerificationStatus::UnderReview));
    assert!(BusinessVerificationStatus::Pending.can_transition_to(BusinessVerificationStatus::Approved));
    assert!(BusinessVerificationStatus::UnderReview.can_transition_to(BusinessVerificationStatus::Rejected));
    assert!(!BusinessVerificationStatus::UnderReview.can_transition_to(BusinessVerificationStatus::Pending));
    assert!(BusinessVerificationStatus::Approved.can_transition_to(BusinessVerificationStatus::Suspended));
    assert!(!BusinessVerificationStatus::Approved.can_transition_to(BusinessVerificationStatus::Rejected));
    assert!(BusinessVerificationStatus::Suspended.can_transition_to(BusinessVerificationStatus::UnderReview));
    assert!(!BusinessVerificationStatus::Rejected.can_transition_to(BusinessVerificationStatus::Approved));
    assert_eq!(ReviewAction::Comment.target_status(BusinessVerificationStatus::Rejected), BusinessVerificationStatus::Rejected);
    assert_eq!(ReviewAction::Resume.target_status(BusinessVerificationStatus::Suspended), BusinessVerificationStatus::UnderReview);
}

#[test]
fn stored_names() {
    assert_eq!(BusinessVerificationStatus::UnderReview.as_str(), "under_review");
    assert_eq!(ReviewAction::RequestMoreInfo.as_str(), "request_more_info");
    assert_eq!(BusinessPromotionType::Challenge.as_str(), "challenge");
    assert_eq!(BusinessPromotionStatus::Cancelled.as_str(), "cancelled");
    assert_eq!(BusinessPromotionScope::Location.as_str(), "location");
    assert_eq!(LocationAdminRole::Manager.as_str(), "manager");
}

#[test]
fn units_keep_one_primary() {
    let mut store = Store::new();
    let company = store
        .add_company(CreateCompanyRequest {
            owner_user_id: 1,
            company_name: "Grupo Sol".to_string(),
            tax_id: None,
            legal_entity_type: Some("SAC".to_string()),
        })
        .unwrap();
    let unit = |name: &str, primary: bool| CreateBusinessUnitRequest {
        unit_name: name.to_string(),
        category: "food".to_string(),
        is_primary: primary,
    };
    let a = store.add_business_unit(company, None, unit("A", true)).unwrap();
    let b = store.add_business_unit(company, None, unit("B", true)).unwrap();
    let primaries = |s: &Store| s.units.iter().filter(|u| u.is_primary).map(|u| u.id).collect::<Vec<_>>();
    assert_eq!(primaries(&store), vec![b]);
    store.set_primary_unit(a).unwrap();
    assert_eq!(primaries(&store), vec![a]);
    store.update_business_unit(b, unit("B2", true), 9).unwrap();
    assert_eq!(primaries(&store), vec![b]);
    assert_eq!(store.get_business_unit(b).unwrap().unit_name, "B2");
    assert_eq!(store.set_primary_unit(12345), Err(ServiceError::NotFound(Missing::Unit)));
    assert_eq!(
        store.add_business_unit(999, None, unit("C", false)),
        Err(ServiceError::NotFound(Missing::Company))
    );
    store.delete_business_unit(a).unwrap();
    assert!(store.get_business_unit(a).is_none());
}

#[test]
fn companies_updated_and_deleted() {
    let mut store = Store::new();
    let req = CreateCompanyRequest {
        owner_user_id: 1,
        company_name: "Old name".to_string(),
        tax_id: None,
        legal_entity_type: None,
    };
    let id = store.add_company(req).unwrap();
    let update = CreateCompanyRequest {
        owner_user_id: 1,
        company_name: "New name".to_string(),
        tax_id: Some("123".to_string()),
        legal_entity_type: None,
    };
    store.update_company(id, update, 5).unwrap();
    assert_eq!(store.get_company(id).unwrap().company_name, "New name");
    store.delete_company(id).unwrap();
    assert_eq!(store.delete_company(id), Err(ServiceError::NotFound(Missing::Company)));
}

#[test]
fn location_admins_soft_removed() {
    let mut store = Store::new();
    let req = CreateBusinessRegistrationRequest {
        user_id: 1,
        name: "Bodega".to_string(),
        category: "market".to_string(),
        address: "Jr. Lampa 200".to_string(),
        description: None,
        phone: None,
        website: None,
        tax_id: None,
        document_urls: vec!["d".to_string()],
        is_multi_user_team: true,
        owner_email: "bodega@example.com".to_string(),
        owner_username: "bodega".to_string(),
        locations: vec![CreateLocationRequest {
            label: "Main".to_string(),
            formatted_address: "Jr. Lampa 200".to_string(),
            street: None,
            city: None,
            state_region: None,
            postal_code: None,
            country: None,
            latitude_e7: None,
            longitude_e7: None,
            google_place_id: None,
            timezone: None,
            phone: None,
            is_primary: false,
            notes: None,
            metadata: None,
        }],
    };
    let reg = store.submit_registration(req).unwrap();
    let loc = store.list_locations_for_registration(reg)[0].id;
    let grant = AddLocationAdminRequest {
        user_id: 44,
        user_email: "staff@example.com".to_string(),
        user_username: "staffer".to_string(),
        role: LocationAdminRole::Staff,
    };
    assert_eq!(grant.validate(), Ok(()));
    store.add_location_admin(grant.into_new_admin(loc, Some(1), Some("owner".to_string()))).unwrap();
    assert_eq!(store.list_location_admins(loc).len(), 1);
    store.remove_location_admin(loc, 44, 99);
    assert_eq!(store.list_location_admins(loc).len(), 0);
    assert_eq!(store.admins.len(), 1);
    assert!(!store.admins[0].is_active);
    let bad = AddLocationAdminRequest {
        user_id: 45,
        user_email: "staff@example.com".to_string(),
        user_username: "ab".to_string(),
        role: LocationAdminRole::Owner,
    };
    assert_eq!(bad.validate(), Err(ValidationError::Length(Field::UserUsername)));
    let orphan = AddLocationAdminRequest {
        user_id: 46,
        user_email: "x@example.com".to_string(),
        user_username: "xavier".to_string(),
        role: LocationAdminRole::Owner,
    };
    assert_eq!(
        store.add_location_admin(orphan.into_new_admin(123, None, None)),
        Err(ServiceError::NotFound(Missing::Location))
    );
}

fn one_location_registration(user: u128) -> CreateBusinessRegistrationRequest {
    CreateBusinessRegistrationRequest {
        user_id: user,
        name: "Kiosko Azul".to_string(),
        category: "kiosk".to_string(),
        address: "Plaza Mayor 1".to_string(),
        description: None,
        phone: None,
        website: None,
        tax_id: None,
        document_urls: vec!["doc".to_string()],
        is_multi_user_team: false,
        owner_email: "azul@example.com".to_string(),
        owner_username: "azul".to_string(),
        locations: vec![CreateLocationRequest {
            label: "Plaza".to_string(),
            formatted_address: "Plaza Mayor 1".to_string(),
            street: None,
            city: None,
            state_region: None,
            postal_code: None,
            country: None,
            latitude_e7: None,
            longitude_e7: None,
            google_place_id: None,
            timezone: None,
            phone: None,
            is_primary: false,
            notes: None,
            metadata: Some("{\"floor\":1}".to_string()),
        }],
    }
}

#[test]
fn location_lookup_by_registration() {
    let mut store = Store::new();
    let a = store.submit_registration(one_location_registration(1)).unwrap();
    let b = store.submit_registration(one_location_registration(2)).unwrap();
    let loc = store.list_locations_for_registration(a)[0].id;
    assert_eq!(store.get_location_by_id(a, loc).unwrap().metadata, "{\"floor\":1}");
    assert!(store.get_location_by_id(b, loc).is_none());
}

#[test]
fn business_id_recorded() {
    let mut store = Store::new();
    let a = store.submit_registration(one_location_registration(1)).unwrap();
    store.upsert_business_id(a, 77, 1234).unwrap();
    let r = store.get_registration_by_id(a).unwrap();
    assert_eq!(r.business_id, Some(77));
    assert_eq!(r.updated_at, 1234);
    assert_eq!(store.upsert_business_id(5, 77, 1), Err(ServiceError::NotFound(Missing::Registration)));
}

#[test]
fn auto_registration_reused_or_created() {
    let mut store = Store::new();
    let user: u128 = 0x67e5504410b1426f9247bb680e5fe0c8;
    let made = store.get_or_create_auto_registration(user, "Unit One", "food").unwrap();
    let r = store.get_registration_by_id(made).unwrap();
    assert_eq!(r.status, BusinessVerificationStatus::Approved);
    assert_eq!(r.name, "Unit One");
    assert_eq!(r.owner_email, "user-67e55044-10b1-426f-9247-bb680e5fe0c8@auto.local");
    assert_eq!(r.owner_username, "user-67e55044-10b1-426f-9247-bb680e5fe0c8");
    assert_eq!(r.address, "Auto-generated for unit management");
    let again = store.get_or_create_auto_registration(user, "Unit Two", "food").unwrap();
    assert_eq!(again, made);
    assert_eq!(store.registrations.len(), 1);
}

#[test]
fn companies_and_units_listed() {
    let mut store = Store::new();
    let req = |name: &str| CreateCompanyRequest {
        owner_user_id: 3,
        company_name: name.to_string(),
        tax_id: None,
        legal_entity_type: None,
    };
    let first = store.add_company(req("First")).unwrap();
    let second = store.add_company(req("Second")).unwrap();
    let names: Vec<&str> = store.list_companies_for_user(3).iter().map(|c| c.company_name.as_str()).collect();
    assert_eq!(names, vec!["Second", "First"]);
    assert!(store.list_companies_for_user(4).is_empty());
    let unit = |name: &str, primary: bool| CreateBusinessUnitRequest {
        unit_name: name.to_string(),
        category: "retail".to_string(),
        is_primary: primary,
    };
    store.add_business_unit(first, None, unit("A", false)).unwrap();
    store.add_business_unit(first, None, unit("B", true)).unwrap();
    store.add_business_unit(second, None, unit("C", true)).unwrap();
    let units: Vec<&str> = store.list_units_for_company(first).iter().map(|u| u.unit_name.as_str()).collect();
    assert_eq!(units, vec!["B", "A"]);
}

#[test]
fn validation_after_email_check() {
    let req = one_location_registration(1);
    assert_eq!(req.validate_given_email(false), Err(ValidationError::Email(Field::OwnerEmail)));
    assert_eq!(req.validate_given_email(true), Ok(()));
    let mut short = one_location_registration(1);
    short.owner_username = "ab".to_string();
    assert_eq!(short.validate_given_email(true), Err(ValidationError::Length(Field::OwnerUsername)));
    let grant = AddLocationAdminRequest {
        user_id: 1,
        user_email: "whatever".to_string(),
        user_username: "ab".to_string(),
        role: LocationAdminRole::Manager,
    };
    assert_eq!(grant.validate_given_email(false), Err(ValidationError::Email(Field::UserEmail)));
    assert_eq!(grant.validate_given_email(true), Err(ValidationError::Length(Field::UserUsername)));
}

#[test]
fn business_payload_checked_and_converted() {
    let req = CreateBusinessRequest {
        registration_id: Some(9),
        owner_user_id: 2,
        business_name: "Cafe Norte".to_string(),
        category: "cafe".to_string(),
        tax_id: None,
        description: None,
        website: Some("https://norte.example.com".to_string()),
        logo_url: None,
    };
    assert_eq!(req.validate(), Ok(()));
    let b = req.clone().into_new_business();
    assert_eq!(b.registration_id, Some(9));
    assert_eq!(b.business_name, "Cafe Norte");
    assert!(b.is_active);
    assert_eq!(b.metadata, "{}");
    let mut short = req;
    short.category = "ab".to_string();
    assert_eq!(short.validate(), Err(ValidationError::Length(Field::Category)));
}

#[test]
fn comment_on_auto_registration_makes_no_business() {
    let mut store = Store::new();
    let reg = store.get_or_create_auto_registration(5, "Unit", "food").unwrap();
    let comment = ReviewActionRequest {
        action: ReviewAction::Comment,
        notes: Some("checked".to_string()),
        rejection_reason: None,
        reviewer_id: Some(1),
        reviewer_name: Some("Luis".to_string()),
    };
    store.record_review_event(reg, comment, 1, 2, 3).unwrap();
    assert!(store.businesses.is_empty());
    assert_eq!(store.get_registration_by_id(reg).unwrap().business_id, None);
    let approve = ReviewActionRequest {
        action: ReviewAction::Approve,
        notes: None,
        rejection_reason: None,
        reviewer_id: Some(1),
        reviewer_name: Some("Luis".to_string()),
    };
    store.record_review_event(reg, approve, 4, 5, 6).unwrap();
    assert!(store.businesses.is_empty());
}

#[test]
fn unit_for_user_needs_company_and_ties_registration() {
    let mut store = Store::new();
    let unit = CreateBusinessUnitRequest { unit_name: "Cafe".to_string(), category: "food".to_string(), is_primary: true };
    assert_eq!(store.add_unit_for_user(999, 3, unit.clone()), Err(ServiceError::NotFound(Missing::Company)));
    assert!(store.registrations.is_empty());
    let company = store
        .add_company(CreateCompanyRequest {
            owner_user_id: 3,
            company_name: "Grupo".to_string(),
            tax_id: None,
            legal_entity_type: None,
        })
        .unwrap();
    let id = store.add_unit_for_user(company, 3, unit).unwrap();
    let u = store.get_business_unit(id).unwrap();
    let reg = u.registration_id.unwrap();
    assert_eq!(store.get_registration_by_id(reg).unwrap().status, BusinessVerificationStatus::Approved);
    assert_eq!(store.get_registration_by_id(reg).unwrap().user_id, 3);
}
