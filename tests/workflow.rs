use business_review::errors::{ConflictKind, Field, Missing, ServiceError, ValidationError};
use business_review::kinds::{BusinessVerificationStatus, ReviewAction};
use business_review::requests::{
    CreateLocationRequest, CreateBusinessRegistrationRequest, ReviewActionRequest,
    UpdateLocationRequest,
};
use business_review::records::{BusinessLocation, BusinessRegistration};
use business_review::store::Store;

fn location(label: &str, is_primary: bool) -> CreateLocationRequest {
    CreateLocationRequest {
        label: label.to_string(),
        formatted_address: format!("{} Main Street 1", label),
        street: None,
        city: Some("Lima".to_string()),
        state_region: None,
        postal_code: None,
        country: None,
        latitude_e7: Some(-120464000),
        longitude_e7: Some(-770428000),
        google_place_id: None,
        timezone: None,
        phone: None,
        is_primary,
        notes: None,
        metadata: None,
    }
}

fn registration(locations: Vec<CreateLocationRequest>) -> CreateBusinessRegistrationRequest {
    CreateBusinessRegistrationRequest {
        user_id: 7,
        name: "Cafe Central".to_string(),
        category: "restaurant".to_string(),
        address: "Av. Larco 123".to_string(),
        description: None,
        phone: None,
        website: None,
        tax_id: Some("20123456789".to_string()),
        document_urls: vec!["https://docs.example.com/license.pdf".to_string()],
        is_multi_user_team: false,
        owner_email: "owner@example.com".to_string(),
        owner_username: "owner".to_string(),
        locations,
    }
}

fn review(action: ReviewAction) -> ReviewActionRequest {
    ReviewActionRequest {
        action,
        notes: None,
        rejection_reason: None,
        reviewer_id: Some(99),
        reviewer_name: Some("Ana Torres".to_string()),
    }
}

fn submitted(store: &mut Store, n: usize) -> u128 {
    let locs = (0..n).map(|i| location(&format!("Branch {}", i), false)).collect();
    store.submit_registration(registration(locs)).expect("registration is valid")
}

fn primaries(store: &Store, reg: u128) -> usize {
    store.locations.iter().filter(|l| l.registration_id == reg && l.is_primary).count()
}

#[test]
fn approve_scenario_two_locations() {
    let mut store = Store::new();
    let reg = submitted(&mut store, 2);
    let locs = store.list_locations_for_registration(reg);
    assert_eq!(locs.len(), 2);
    assert!(locs[0].is_primary);
    assert_eq!(locs[0].label, "Branch 0");

    store.submit_review_action(reg, review(ReviewAction::Approve)).unwrap();

    let r = store.get_registration_by_id(reg).unwrap();
    assert_eq!(r.status, BusinessVerificationStatus::Approved);
    let events = store.list_review_events(reg);
    assert_eq!(events.len(), 1);
    assert_eq!(events[0].action, ReviewAction::Approve);
    assert_eq!(primaries(&store, reg), 1);
}

#[test]
fn first_approval_makes_one_business() {
    let mut store = Store::new();
    let reg = submitted(&mut store, 1);
    store.record_review_event(reg, review(ReviewAction::Approve), 1, 500, 10).unwrap();
    assert_eq!(store.businesses.len(), 1);
    assert_eq!(store.businesses[0].id, 500);
    assert_eq!(store.businesses[0].business_name, "Cafe Central");
    assert_eq!(store.get_registration_by_id(reg).unwrap().business_id, Some(500));
    store.record_review_event(reg, review(ReviewAction::Approve), 2, 501, 11).unwrap();
    assert_eq!(store.businesses.len(), 1);
    assert_eq!(store.events.len(), 2);
}

#[test]
fn reject_without_reason_changes_nothing() {
    let mut store = Store::new();
    let reg = submitted(&mut store, 1);
    let r = store.submit_review_action(reg, review(ReviewAction::Reject));
    assert_eq!(r, Err(ServiceError::Validation(ValidationError::RejectionReasonRequired)));
    assert_eq!(store.events.len(), 0);
    assert_eq!(store.get_registration_by_id(reg).unwrap().status, BusinessVerificationStatus::Pending);
}

#[test]
fn reject_with_reason_records_it() {
    let mut store = Store::new();
    let reg = submitted(&mut store, 1);
    let mut req = review(ReviewAction::Reject);
    req.rejection_reason = Some("Blurry documents".to_string());
    store.record_review_event(reg, req, 1, 2, 100).unwrap();
    let r = store.get_registration_by_id(reg).unwrap();
    assert_eq!(r.status, BusinessVerificationStatus::Rejected);
    assert_eq!(r.rejection_reason.as_deref(), Some("Blurry documents"));
    assert_eq!(r.reviewer_name.as_deref(), Some("Ana Torres"));
    assert_eq!(r.updated_at, 100);
}

#[test]
fn comment_keeps_status_and_appends_event() {
    let mut store = Store::new();
    let reg = submitted(&mut store, 1);
    store.record_review_event(reg, review(ReviewAction::RequestMoreInfo), 1, 2, 5).unwrap();
    let mut comment = review(ReviewAction::Comment);
    comment.notes = Some("Called the owner".to_string());
    store.record_review_event(reg, comment, 3, 4, 6).unwrap();
    let r = store.get_registration_by_id(reg).unwrap();
    assert_eq!(r.status, BusinessVerificationStatus::UnderReview);
    assert_eq!(r.reviewer_notes.as_deref(), Some("Called the owner"));
    assert_eq!(store.list_review_events(reg).len(), 2);
}

#[test]
fn notes_kept_when_absent() {
    let mut store = Store::new();
    let reg = submitted(&mut store, 1);
    let mut first = review(ReviewAction::Comment);
    first.notes = Some("first note".to_string());
    store.record_review_event(reg, first, 1, 2, 5).unwrap();
    store.record_review_event(reg, review(ReviewAction::Comment), 3, 4, 6).unwrap();
    let r = store.get_registration_by_id(reg).unwrap();
    assert_eq!(r.reviewer_notes.as_deref(), Some("first note"));
}

#[test]
fn review_of_missing_registration() {
    let mut store = Store::new();
    let r = store.submit_review_action(12345, review(ReviewAction::Approve));
    assert_eq!(r, Err(ServiceError::NotFound(Missing::Registration)));
}

#[test]
fn review_needs_named_actor() {
    let mut store = Store::new();
    let reg = submitted(&mut store, 1);
    let mut req = review(ReviewAction::Approve);
    req.reviewer_name = Some("   ".to_string());
    let r = store.submit_review_action(reg, req);
    assert_eq!(r, Err(ServiceError::Validation(ValidationError::ReviewerRequired)));
    let mut req = review(ReviewAction::Approve);
    req.reviewer_id = None;
    let r = store.submit_review_action(reg, req);
    assert_eq!(r, Err(ServiceError::Validation(ValidationError::ReviewerRequired)));
    assert_eq!(store.events.len(), 0);
}

#[test]
fn illegal_transition_refused() {
    let mut store = Store::new();
    let reg = submitted(&mut store, 1);
    let mut req = review(ReviewAction::Reject);
    req.rejection_reason = Some("No license".to_string());
    store.record_review_event(reg, req, 1, 2, 3).unwrap();
    let r = store.record_review_event(reg, review(ReviewAction::Approve), 4, 5, 6);
    assert_eq!(r, Err(ServiceError::Conflict(ConflictKind::TransitionNotAllowed)));
    assert_eq!(store.events.len(), 1);
}

#[test]
fn suspend_then_resume() {
    let mut store = Store::new();
    let reg = submitted(&mut store, 1);
    store.record_review_event(reg, review(ReviewAction::Approve), 1, 2, 3).unwrap();
    store.record_review_event(reg, review(ReviewAction::Suspend), 4, 5, 6).unwrap();
    assert_eq!(store.get_registration_by_id(reg).unwrap().status, BusinessVerificationStatus::Suspended);
    store.record_review_event(reg, review(ReviewAction::Resume), 7, 8, 9).unwrap();
    assert_eq!(store.get_registration_by_id(reg).unwrap().status, BusinessVerificationStatus::UnderReview);
}

#[test]
fn duplicate_event_id_refused() {
    let mut store = Store::new();
    let reg = submitted(&mut store, 1);
    store.record_review_event(reg, review(ReviewAction::Comment), 1, 2, 3).unwrap();
    let r = store.record_review_event(reg, review(ReviewAction::Comment), 1, 2, 3);
    assert_eq!(r, Err(ServiceError::DuplicateKey));
    assert_eq!(store.events.len(), 1);
}

#[test]
fn events_listed_oldest_first() {
    let mut store = Store::new();
    let reg = submitted(&mut store, 1);
    store.record_review_event(reg, review(ReviewAction::RequestMoreInfo), 1, 2, 10).unwrap();
    store.record_review_event(reg, review(ReviewAction::Approve), 3, 4, 20).unwrap();
    let events = store.list_review_events(reg);
    assert_eq!(events[0].action, ReviewAction::RequestMoreInfo);
    assert_eq!(events[1].action, ReviewAction::Approve);
    assert!(events[0].created_at < events[1].created_at);
}

#[test]
fn later_primary_wins_at_submission() {
    let mut store = Store::new();
    let reg = store
        .submit_registration(registration(vec![location("First", false), location("Second", true)]))
        .unwrap();
    let locs = store.list_locations_for_registration(reg);
    assert_eq!(locs[0].label, "Second");
    assert!(locs[0].is_primary);
    assert!(!locs[1].is_primary);
    assert_eq!(primaries(&store, reg), 1);
}

#[test]
fn registration_without_locations_refused() {
    let mut store = Store::new();
    let r = store.submit_registration(registration(vec![]));
    assert_eq!(r, Err(ServiceError::Validation(ValidationError::Length(Field::Locations))));
    assert_eq!(store.registrations.len(), 0);
}

#[test]
fn registration_with_bad_email_refused() {
    let mut req = registration(vec![location("Main", false)]);
    req.owner_email = "not-an-email".to_string();
    assert_eq!(req.validate(), Err(ValidationError::Email(Field::OwnerEmail)));
}

#[test]
fn registration_name_bounds() {
    let mut req = registration(vec![location("Main", false)]);
    req.name = "ab".to_string();
    assert_eq!(req.validate(), Err(ValidationError::Length(Field::Name)));
    req.name = "abc".to_string();
    assert_eq!(req.validate(), Ok(()));
    req.name = "x".repeat(120);
    assert_eq!(req.validate(), Ok(()));
    req.name = "x".repeat(121);
    assert_eq!(req.validate(), Err(ValidationError::Length(Field::Name)));
}

#[test]
fn nested_location_checked() {
    let mut bad = location("Main", false);
    bad.label = "x".to_string();
    let req = registration(vec![location("Good", false), bad]);
    assert_eq!(req.validate(), Err(ValidationError::Length(Field::Label)));
}

#[test]
fn delete_last_location_refused() {
    let mut store = Store::new();
    let reg = submitted(&mut store, 1);
    let only = store.list_locations_for_registration(reg)[0].id;
    let r = store.delete_location(reg, only);
    assert_eq!(r, Err(ServiceError::Conflict(ConflictKind::LastLocation)));
    assert_eq!(store.list_locations_for_registration(reg).len(), 1);
}

#[test]
fn delete_primary_promotes_first_remaining() {
    let mut store = Store::new();
    let reg = submitted(&mut store, 3);
    let primary = store.list_locations_for_registration(reg)[0].id;
    store.delete_location(reg, primary).unwrap();
    let locs = store.list_locations_for_registration(reg);
    assert_eq!(locs.len(), 2);
    assert!(locs[0].is_primary);
    assert_eq!(locs[0].label, "Branch 1");
    assert_eq!(primaries(&store, reg), 1);
}

#[test]
fn delete_missing_location() {
    let mut store = Store::new();
    let reg = submitted(&mut store, 2);
    assert_eq!(store.delete_location(reg, 424242), Err(ServiceError::NotFound(Missing::Location)));
    assert_eq!(store.delete_location(1, 424242), Err(ServiceError::NotFound(Missing::Registration)));
}

#[test]
fn new_primary_location_clears_siblings() {
    let mut store = Store::new();
    let reg = submitted(&mut store, 2);
    let id = store.add_location(reg, location("Third", true)).unwrap();
    assert_eq!(primaries(&store, reg), 1);
    assert_eq!(store.list_locations_for_registration(reg)[0].id, id);
}

#[test]
fn update_location_to_primary() {
    let mut store = Store::new();
    let reg = submitted(&mut store, 2);
    let second = store.list_locations_for_registration(reg)[1].id;
    let req = UpdateLocationRequest {
        label: "Renamed".to_string(),
        formatted_address: "Jr. Union 456".to_string(),
        street: None,
        city: None,
        state_region: None,
        postal_code: None,
        country: None,
        latitude_e7: None,
        longitude_e7: None,
        google_place_id: None,
        timezone: None,
        phone: None,
        is_primary: true,
        notes: None,
        metadata: None,
    };
    store.update_location(reg, second, req, 77).unwrap();
    let locs = store.list_locations_for_registration(reg);
    assert_eq!(locs[0].id, second);
    assert_eq!(locs[0].label, "Renamed");
    assert_eq!(locs[0].updated_at, 77);
    assert_eq!(primaries(&store, reg), 1);
}

#[test]
fn add_location_validation_and_missing_registration() {
    let mut store = Store::new();
    let reg = submitted(&mut store, 1);
    let mut bad = location("Shop", false);
    bad.formatted_address = "abc".to_string();
    assert_eq!(
        store.add_location(reg, bad),
        Err(ServiceError::Validation(ValidationError::Length(Field::FormattedAddress)))
    );
    assert_eq!(
        store.add_location(999, location("Shop", false)),
        Err(ServiceError::NotFound(Missing::Registration))
    );
}

#[test]
fn pending_reviews_paged() {
    let mut store = Store::new();
    let a = submitted(&mut store, 1);
    let b = submitted(&mut store, 1);
    let c = submitted(&mut store, 1);
    store.record_review_event(b, review(ReviewAction::Approve), 1, 2, 3).unwrap();
    let all = store.list_pending_reviews(50, 0);
    assert_eq!(all.len(), 2);
    assert_eq!(all[0].id, a);
    assert_eq!(all[1].id, c);
    let page = store.list_pending_reviews(1, 1);
    assert_eq!(page.len(), 1);
    assert_eq!(page[0].id, c);
    assert_eq!(store.list_pending_reviews(10, 5).len(), 0);
}

#[test]
fn review_stats_counts() {
    let mut store = Store::new();
    let a = submitted(&mut store, 1);
    let _b = submitted(&mut store, 1);
    let c = submitted(&mut store, 1);
    store.record_review_event(a, review(ReviewAction::Approve), 1, 2, 3).unwrap();
    store.record_review_event(c, review(ReviewAction::RequestMoreInfo), 4, 5, 6).unwrap();
    let now = store.registrations[0].submitted_at;
    let stats = store.get_review_stats(now);
    assert_eq!(stats.pending, 1);
    assert_eq!(stats.under_review, 1);
    assert_eq!(stats.approved_today, 1);
    assert_eq!(stats.rejected_today, 0);
    let later = store.get_review_stats(now + 2 * 86_400_000_000);
    assert_eq!(later.approved_today, 0);
}

fn registration_record(id: u128, user: u128, submitted_at: i64) -> BusinessRegistration {
    BusinessRegistration {
        id,
        user_id: user,
        business_id: None,
        name: format!("Shop {}", id),
        category: "retail".to_string(),
        address: "Av. Arequipa 500".to_string(),
        description: None,
        phone: None,
        website: None,
        tax_id: None,
        document_urls: vec!["doc".to_string()],
        is_multi_user_team: false,
        status: BusinessVerificationStatus::Pending,
        owner_email: "shop@example.com".to_string(),
        owner_username: "shop".to_string(),
        rejection_reason: None,
        reviewer_notes: None,
        reviewer_id: None,
        reviewer_name: None,
        submitted_at,
        updated_at: submitted_at,
    }
}

fn location_record(id: u128, registration_id: u128, created_at: i64, is_primary: bool) -> BusinessLocation {
    BusinessLocation {
        id,
        registration_id,
        business_id: None,
        label: format!("Site {}", id),
        formatted_address: "Av. Arequipa 500".to_string(),
        street: None,
        city: None,
        state_region: None,
        postal_code: None,
        country: None,
        latitude_e7: None,
        longitude_e7: None,
        google_place_id: None,
        timezone: None,
        phone: None,
        is_primary,
        notes: None,
        metadata: "{}".to_string(),
        created_at,
        updated_at: created_at,
    }
}

#[test]
fn registrations_for_user_newest_first() {
    let mut store = Store::new();
    store.create_registration(registration_record(1, 7, 300), vec![]).unwrap();
    store.create_registration(registration_record(2, 7, 100), vec![]).unwrap();
    store.create_registration(registration_record(3, 8, 900), vec![]).unwrap();
    store.create_registration(registration_record(4, 7, 200), vec![]).unwrap();
    let list: Vec<u128> = store.list_registrations_for_user(7).iter().map(|r| r.id).collect();
    assert_eq!(list, vec![1, 4, 2]);
    assert_eq!(store.get_latest_registration_for_user(7).unwrap().id, 1);
    assert!(store.get_latest_registration_for_user(9).is_none());
}

#[test]
fn events_sorted_by_time_not_arrival() {
    let mut store = Store::new();
    let reg = submitted(&mut store, 1);
    store.record_review_event(reg, review(ReviewAction::Comment), 1, 2, 50).unwrap();
    store.record_review_event(reg, review(ReviewAction::RequestMoreInfo), 3, 4, 20).unwrap();
    let times: Vec<i64> = store.list_review_events(reg).iter().map(|e| e.created_at).collect();
    assert_eq!(times, vec![20, 50]);
}

#[test]
fn deleted_primary_replaced_by_earliest_created() {
    let mut store = Store::new();
    store.create_registration(registration_record(1, 7, 10), vec![location_record(10, 0, 10, true)]).unwrap();
    store.create_location_for_registration(location_record(11, 1, 300, false)).unwrap();
    store.create_location_for_registration(location_record(12, 1, 100, false)).unwrap();
    store.delete_location(1, 10).unwrap();
    let primary: Vec<u128> = store.locations.iter().filter(|l| l.is_primary).map(|l| l.id).collect();
    assert_eq!(primary, vec![12]);
}

#[test]
fn new_registration_has_no_history() {
    let mut store = Store::new();
    let reg = submitted(&mut store, 2);
    assert!(store.list_review_events(reg).is_empty());
    assert!(store.list_promotions_for_registration(reg).is_empty());
    assert_eq!(store.get_registration_by_id(reg).unwrap().status, BusinessVerificationStatus::Pending);
}

#[test]
fn locations_listed_primary_then_by_creation_time() {
    let mut store = Store::new();
    store.create_registration(registration_record(1, 7, 10), vec![location_record(10, 0, 500, true)]).unwrap();
    store.create_location_for_registration(location_record(11, 1, 300, false)).unwrap();
    store.create_location_for_registration(location_record(12, 1, 100, false)).unwrap();
    let order: Vec<u128> = store.list_locations_for_registration(1).iter().map(|l| l.id).collect();
    assert_eq!(order, vec![10, 12, 11]);
}
