//! Properties of the workflow that hold over any sequence of operations.
//!
//! Every operation of the store ensures `history_kept` and `locations_kept`
//! between the state before and the state after it, and keeps `wf`.  The
//! lemmas below carry those facts across sequences of operations and state
//! the rules that single operations obey.

use vstd::prelude::*;
use crate::errors::{ConflictKind, Missing, ServiceError, ValidationError};
use crate::kinds::{BusinessPromotionScope, ReviewAction};
use crate::locations::delete_location_failure;
use crate::promotion_requests::UpdatePromotionRequest;
use crate::promotions::{all_locations_of, create_promotion_failure, promotion_of, update_promotion_failure};
use crate::queries::events_of;
use crate::records::{BusinessPromotion, BusinessReviewEvent};
use crate::kinds::BusinessVerificationStatus;
use crate::locations::no_history_or_promotions;
use crate::requests::ReviewActionRequest;
use crate::store::{
    business_from, event_for, history_kept, location_of, locations_kept, makes_business,
    registration_exists, registration_reviewed, review_applied, review_failure, review_rule_failure,
    Store,
};

verus! {

/// Over any sequence of operations, the review trail only grows, and every
/// registration whose status differs from its status at the start has a
/// review event, recorded in between, whose action sets that status.
pub proof fn lemma_history_kept_trans(a: Store, b: Store, c: Store)
    requires
        history_kept(a, b),
        history_kept(b, c),
    ensures
        history_kept(a, c),
{
    let n = a.events@.len();
    let m = b.events@.len();
    assert(c.events@.subrange(0, n as int) =~= c.events@.subrange(0, m as int).subrange(0, n as int));
    assert forall|i: int|
        0 <= i < a.registrations@.len() && (#[trigger] c.registrations@[i]).status != a.registrations@[i].status
            implies exists|k: int|
            n <= k < c.events@.len() && (#[trigger] c.events@[k]).registration_id == a.registrations@[i].id
                && crate::store::sets_status(c.events@[k].action, c.registrations@[i].status) by {
        if c.registrations@[i].status != b.registrations@[i].status {
            let k = choose|k: int|
                m <= k < c.events@.len() && (#[trigger] c.events@[k]).registration_id == b.registrations@[i].id
                    && crate::store::sets_status(c.events@[k].action, c.registrations@[i].status);
            assert(n <= k);
        } else {
            let k = choose|k: int|
                n <= k < b.events@.len() && (#[trigger] b.events@[k]).registration_id == a.registrations@[i].id
                    && crate::store::sets_status(b.events@[k].action, b.registrations@[i].status);
            assert(c.events@.subrange(0, m as int)[k] == b.events@[k]);
            assert(c.events@[k] == b.events@[k]);
        }
    }
}

/// Over any sequence of operations the number of review events never drops.
pub proof fn lemma_event_count_monotone(a: Store, b: Store)
    requires
        history_kept(a, b),
    ensures
        a.events@.len() <= b.events@.len(),
{
}

proof fn lemma_events_of_prefix(s: Seq<BusinessReviewEvent>, n: int, reg: u128)
    requires
        0 <= n <= s.len(),
    ensures
        events_of(s.subrange(0, n), reg).len() <= events_of(s, reg).len(),
    decreases s.len() - n,
{
    if n == s.len() {
        assert(s.subrange(0, n) =~= s);
    } else {
        assert(s.drop_last().subrange(0, n) =~= s.subrange(0, n));
        lemma_events_of_prefix(s.drop_last(), n, reg);
    }
}

/// Over any sequence of operations, the number of review events of each
/// registration never drops.
pub proof fn lemma_events_per_registration_monotone(a: Store, b: Store, reg: u128)
    requires
        history_kept(a, b),
    ensures
        events_of(a.events@, reg).len() <= events_of(b.events@, reg).len(),
{
    lemma_events_of_prefix(b.events@, a.events@.len() as int, reg);
}

/// A rejection without a reason fails validation for an existing
/// registration, whatever identifiers are drawn; the review operations then
/// write nothing: no event, no status change.
pub proof fn lemma_reject_needs_reason(
    s: Store,
    registration_id: u128,
    req: ReviewActionRequest,
    event_id: u128,
    business_id: u128,
)
    requires
        registration_exists(s.registrations@, registration_id),
        req.action == ReviewAction::Reject,
        req.rejection_reason is None,
    ensures
        review_rule_failure(s, registration_id, req) == Some(
            ServiceError::Validation(ValidationError::RejectionReasonRequired),
        ),
        review_failure(s, registration_id, req, event_id, business_id) == Some(
            ServiceError::Validation(ValidationError::RejectionReasonRequired),
        ),
{
}

/// A comment leaves the status of the registration as it was and appends one
/// event to the trail.
pub proof fn lemma_comment_keeps_status(
    old: Store,
    new: Store,
    registration_id: u128,
    req: ReviewActionRequest,
    event_id: u128,
    business_id: u128,
    now: i64,
)
    requires
        old.wf(),
        review_applied(old, new, registration_id, req, event_id, business_id, now),
        req.action == ReviewAction::Comment,
    ensures
        new.registrations@.len() == old.registrations@.len(),
        forall|i: int|
            0 <= i < old.registrations@.len() ==> (#[trigger] new.registrations@[i]).status == old.registrations@[i].status,
        new.events@.len() == old.events@.len() + 1,
        new.events@.last().action == ReviewAction::Comment,
        new.events@.last().registration_id == registration_id,
{
}

/// Over any sequence of operations, a registration that has a location keeps
/// at least one.
pub proof fn lemma_locations_kept_trans(a: Store, b: Store, c: Store)
    requires
        locations_kept(a, b),
        locations_kept(b, c),
    ensures
        locations_kept(a, c),
{
}

/// Deleting the only location of a registration is refused as the last
/// location.
pub proof fn lemma_last_location_stays(s: Store, registration_id: u128, location_id: u128)
    requires
        registration_exists(s.registrations@, registration_id),
        location_of(s.locations@, location_id, registration_id),
        forall|j: int|
            0 <= j < s.locations@.len() && (#[trigger] s.locations@[j]).registration_id == registration_id
                ==> s.locations@[j].id == location_id,
    ensures
        delete_location_failure(s, registration_id, location_id) == Some(
            ServiceError::Conflict(ConflictKind::LastLocation),
        ),
{
}

/// In every well-formed state, at most one location of a registration is
/// primary.
pub proof fn lemma_one_primary_location(s: Store, i: int, j: int)
    requires
        s.wf(),
        0 <= i < s.locations@.len(),
        0 <= j < s.locations@.len(),
        s.locations@[i].is_primary,
        s.locations@[j].is_primary,
        s.locations@[i].registration_id == s.locations@[j].registration_id,
    ensures
        i == j,
{
}

/// In every well-formed state, at most one unit of a company is primary.
pub proof fn lemma_one_primary_unit(s: Store, i: int, j: int)
    requires
        s.wf(),
        0 <= i < s.units@.len(),
        0 <= j < s.units@.len(),
        s.units@[i].is_primary,
        s.units@[j].is_primary,
        s.units@[i].company_id == s.units@[j].company_id,
    ensures
        i == j,
{
}

/// Creating a location-scoped promotion that names a location of another
/// registration fails as a missing location; `create_promotion` then writes
/// nothing, so no binding is stored.
pub proof fn lemma_foreign_location_refused_on_create(
    s: Store,
    p: BusinessPromotion,
    ids: Seq<u128>,
    k: int,
    other: u128,
)
    requires
        s.wf(),
        registration_exists(s.registrations@, p.registration_id),
        p.scope == BusinessPromotionScope::Location,
        0 <= k < ids.len(),
        location_of(s.locations@, ids[k], other),
        other != p.registration_id,
    ensures
        create_promotion_failure(s, p, ids) == Some(ServiceError::NotFound(Missing::Location)),
{
    let w = choose|w: int| 0 <= w < s.locations@.len() && (#[trigger] s.locations@[w]).id == ids[k]
        && s.locations@[w].registration_id == other;
    assert(!location_of(s.locations@, ids[k], p.registration_id));
    assert(!all_locations_of(s, ids, p.registration_id));
}

/// Updating a promotion to be location-scoped over a location of another
/// registration fails as a missing location; `update_promotion` then writes
/// nothing, so the previous bindings stay.
pub proof fn lemma_foreign_location_refused_on_update(
    s: Store,
    registration_id: u128,
    promotion_id: u128,
    req: UpdatePromotionRequest,
    k: int,
    other: u128,
)
    requires
        s.wf(),
        registration_exists(s.registrations@, registration_id),
        req.problem() is None,
        promotion_of(s, promotion_id, registration_id),
        req.fields.scope == BusinessPromotionScope::Location,
        0 <= k < req.fields.location_ids@.len(),
        location_of(s.locations@, req.fields.location_ids@[k], other),
        other != registration_id,
    ensures
        update_promotion_failure(s, registration_id, promotion_id, req) == Some(
            ServiceError::NotFound(Missing::Location),
        ),
{
    let ids = req.fields.location_ids@;
    let w = choose|w: int| 0 <= w < s.locations@.len() && (#[trigger] s.locations@[w]).id == ids[k]
        && s.locations@[w].registration_id == other;
    assert(!location_of(s.locations@, ids[k], registration_id));
    assert(!all_locations_of(s, ids, registration_id));
}

proof fn lemma_no_events_of(es: Seq<BusinessReviewEvent>, reg: u128)
    requires
        forall|k: int| 0 <= k < es.len() ==> (#[trigger] es[k]).registration_id != reg,
    ensures
        events_of(es, reg).len() == 0,
    decreases es.len(),
{
    if es.len() > 0 {
        assert forall|k: int| 0 <= k < es.drop_last().len() implies (#[trigger] es.drop_last()[k]).registration_id
            != reg by {
            assert(es.drop_last()[k] == es[k]);
        }
        lemma_no_events_of(es.drop_last(), reg);
    }
}

/// Approving a registration that has no review history yet leaves it
/// approved with exactly one event in its history, that approval, and does
/// not touch its locations.
pub proof fn lemma_first_approval(
    old: Store,
    new: Store,
    registration_id: u128,
    req: ReviewActionRequest,
    event_id: u128,
    business_id: u128,
    now: i64,
)
    requires
        old.wf(),
        no_history_or_promotions(old, registration_id),
        review_applied(old, new, registration_id, req, event_id, business_id, now),
        req.action == ReviewAction::Approve,
    ensures
        forall|i: int|
            0 <= i < new.registrations@.len() && (#[trigger] new.registrations@[i]).id == registration_id
                ==> new.registrations@[i].status == BusinessVerificationStatus::Approved,
        events_of(new.events@, registration_id).len() == 1,
        events_of(new.events@, registration_id)[0].action == ReviewAction::Approve,
        new.locations@ == old.locations@,
{
    let i = choose|i: int|
        0 <= i < old.registrations@.len() && old.registrations@[i].id == registration_id && {
            let before = old.registrations@[i];
            let after = new.registrations@[i];
            &&& new.registrations@ == old.registrations@.update(i, after)
            &&& registration_reviewed(before, after, req, now)
            &&& new.events@.len() == old.events@.len() + 1
            &&& new.events@.drop_last() == old.events@
            &&& event_for(new.events@.last(), event_id, registration_id, req, now)
            &&& if makes_business(before, req) {
                &&& after.business_id == Some(business_id)
                &&& new.businesses@.len() == old.businesses@.len() + 1
                &&& new.businesses@.drop_last() == old.businesses@
                &&& business_from(new.businesses@.last(), business_id, before, now)
            } else {
                &&& after.business_id == before.business_id
                &&& new.businesses@ == old.businesses@
            }
        };
    assert forall|j: int|
        0 <= j < new.registrations@.len() && (#[trigger] new.registrations@[j]).id == registration_id implies new.registrations@[j].status
        == BusinessVerificationStatus::Approved by {
        if j != i {
            assert(old.registrations@[j].id == old.registrations@[i].id);
        }
    }
    lemma_no_events_of(old.events@, registration_id);
    assert(events_of(new.events@, registration_id) == events_of(old.events@, registration_id).push(new.events@.last()));
}

} // verus!
