//! The tables of the service and the review workflow over them.
//!
//! Each table is a vector in creation order.  Every operation checks all its
//! preconditions before it writes anything, so an operation that fails leaves
//! the store exactly as it found it: no half-applied state is ever visible.

use vstd::prelude::*;
use crate::errors::{ConflictKind, Missing, ServiceError};
use crate::kinds::{action_allowed, status_after, BusinessVerificationStatus, ReviewAction};
use crate::outside::{now_micros, random_id};
use crate::records::{
    copy_text, Business, BusinessCompany, BusinessLocation, BusinessPromotion,
    BusinessRegistration, BusinessReviewEvent, BusinessUnit, LocationAdmin, PromotionLocation,
};
use crate::requests::ReviewActionRequest;

verus! {

/// Every table of the service.
pub struct Store {
    pub registrations: Vec<BusinessRegistration>,
    pub events: Vec<BusinessReviewEvent>,
    pub businesses: Vec<Business>,
    pub locations: Vec<BusinessLocation>,
    pub promotions: Vec<BusinessPromotion>,
    pub promotion_locations: Vec<PromotionLocation>,
    pub companies: Vec<BusinessCompany>,
    pub units: Vec<BusinessUnit>,
    pub admins: Vec<LocationAdmin>,
}

/// Some registration has identifier `id`.
pub open spec fn registration_exists(regs: Seq<BusinessRegistration>, id: u128) -> bool {
    exists|i: int| 0 <= i < regs.len() && (#[trigger] regs[i]).id == id
}

/// Some location has identifier `id`.
pub open spec fn location_id_used(locs: Seq<BusinessLocation>, id: u128) -> bool {
    exists|j: int| 0 <= j < locs.len() && (#[trigger] locs[j]).id == id
}

/// Some location belongs to registration `reg`.
pub open spec fn has_location(locs: Seq<BusinessLocation>, reg: u128) -> bool {
    exists|j: int| 0 <= j < locs.len() && (#[trigger] locs[j]).registration_id == reg
}

/// Some join row names location `id`.
pub open spec fn location_id_joined(rows: Seq<PromotionLocation>, id: u128) -> bool {
    exists|k: int| 0 <= k < rows.len() && (#[trigger] rows[k]).location_id == id
}

/// Some join row names promotion `id`.
pub open spec fn promotion_id_joined(rows: Seq<PromotionLocation>, id: u128) -> bool {
    exists|k: int| 0 <= k < rows.len() && (#[trigger] rows[k]).promotion_id == id
}

/// Some promotion has identifier `id`.
pub open spec fn promotion_id_used(promos: Seq<BusinessPromotion>, id: u128) -> bool {
    exists|i: int| 0 <= i < promos.len() && (#[trigger] promos[i]).id == id
}

/// Location `id` belongs to registration `reg`.
pub open spec fn location_of(locs: Seq<BusinessLocation>, id: u128, reg: u128) -> bool {
    exists|j: int| 0 <= j < locs.len() && (#[trigger] locs[j]).id == id && locs[j].registration_id == reg
}

/// At most one location of each registration is primary.
pub open spec fn one_primary_location(locs: Seq<BusinessLocation>) -> bool {
    forall|i: int, j: int|
        0 <= i < locs.len() && 0 <= j < locs.len() && (#[trigger] locs[i]).is_primary
            && (#[trigger] locs[j]).is_primary && locs[i].registration_id == locs[j].registration_id
            ==> i == j
}

/// At most one unit of each company is primary.
pub open spec fn one_primary_unit(units: Seq<BusinessUnit>) -> bool {
    forall|i: int, j: int|
        0 <= i < units.len() && 0 <= j < units.len() && (#[trigger] units[i]).is_primary
            && (#[trigger] units[j]).is_primary && units[i].company_id == units[j].company_id
            ==> i == j
}

/// Join rows bind promotions only to locations of the promotion's own registration.
pub open spec fn joins_within_registration(
    promos: Seq<BusinessPromotion>,
    locs: Seq<BusinessLocation>,
    rows: Seq<PromotionLocation>,
) -> bool {
    forall|k: int, i: int, j: int|
        0 <= k < rows.len() && 0 <= i < promos.len() && 0 <= j < locs.len()
            && (#[trigger] rows[k]).promotion_id == (#[trigger] promos[i]).id
            && rows[k].location_id == (#[trigger] locs[j]).id
            ==> locs[j].registration_id == promos[i].registration_id
}

impl Store {
    /// The invariants every operation keeps: identifiers of registrations,
    /// locations, promotions, units and companies are unique within their table,
    /// every location, review event and promotion belongs to an existing
    /// registration, at most one
    /// location per registration and one unit per company is primary, and
    /// promotions are bound only to locations of their own registration.
    pub open spec fn wf(&self) -> bool {
        let regs = self.registrations@;
        let locs = self.locations@;
        let promos = self.promotions@;
        &&& forall|i: int, j: int|
            0 <= i < regs.len() && 0 <= j < regs.len() && (#[trigger] regs[i]).id == (#[trigger] regs[j]).id
                ==> i == j
        &&& forall|i: int, j: int|
            0 <= i < locs.len() && 0 <= j < locs.len() && (#[trigger] locs[i]).id == (#[trigger] locs[j]).id
                ==> i == j
        &&& forall|i: int, j: int|
            0 <= i < promos.len() && 0 <= j < promos.len() && (#[trigger] promos[i]).id
                == (#[trigger] promos[j]).id ==> i == j
        &&& forall|j: int| 0 <= j < locs.len() ==> registration_exists(regs, (#[trigger] locs[j]).registration_id)
        &&& forall|k: int|
            0 <= k < self.events@.len() ==> registration_exists(regs, (#[trigger] self.events@[k]).registration_id)
        &&& forall|i: int| 0 <= i < promos.len() ==> registration_exists(regs, (#[trigger] promos[i]).registration_id)
        &&& forall|i: int, j: int|
            0 <= i < self.units@.len() && 0 <= j < self.units@.len() && (#[trigger] self.units@[i]).id
                == (#[trigger] self.units@[j]).id ==> i == j
        &&& forall|i: int, j: int|
            0 <= i < self.companies@.len() && 0 <= j < self.companies@.len() && (#[trigger] self.companies@[i]).id
                == (#[trigger] self.companies@[j]).id ==> i == j
        &&& one_primary_location(locs)
        &&& one_primary_unit(self.units@)
        &&& joins_within_registration(promos, locs, self.promotion_locations@)
    }

    /// An empty store.
    pub fn new() -> (r: Store)
        ensures
            r.wf(),
            r.registrations@.len() == 0,
            r.events@.len() == 0,
            r.locations@.len() == 0,
            r.promotions@.len() == 0,
            r.promotion_locations@.len() == 0,
    {
        Store {
            registrations: Vec::new(),
            events: Vec::new(),
            businesses: Vec::new(),
            locations: Vec::new(),
            promotions: Vec::new(),
            promotion_locations: Vec::new(),
            companies: Vec::new(),
            units: Vec::new(),
            admins: Vec::new(),
        }
    }

    /// The position of the registration with identifier `id`.
    pub fn registration_index(&self, id: u128) -> (r: Option<usize>)
        ensures
            match r {
                Some(i) => i < self.registrations@.len() && self.registrations@[i as int].id == id,
                None => !registration_exists(self.registrations@, id),
            },
    {
        let mut i: usize = 0;
        while i < self.registrations.len()
            invariant
                i <= self.registrations@.len(),
                forall|k: int| 0 <= k < i ==> (#[trigger] self.registrations@[k]).id != id,
            decreases self.registrations@.len() - i,
        {
            if self.registrations[i].id == id {
                return Some(i);
            }
            i = i + 1;
        }
        None
    }

    /// The registration with identifier `id`, if there is one.
    pub fn get_registration_by_id(&self, id: u128) -> (r: Option<&BusinessRegistration>)
        ensures
            match r {
                Some(reg) => reg.id == id && exists|i: int|
                    0 <= i < self.registrations@.len() && self.registrations@[i] == *reg,
                None => !registration_exists(self.registrations@, id),
            },
    {
        match self.registration_index(id) {
            Some(i) => Some(&self.registrations[i]),
            None => None,
        }
    }

    /// Whether a location has identifier `id`.
    pub fn location_id_taken(&self, id: u128) -> (r: bool)
        ensures
            r == location_id_used(self.locations@, id),
    {
        let mut j: usize = 0;
        while j < self.locations.len()
            invariant
                j <= self.locations@.len(),
                forall|k: int| 0 <= k < j ==> (#[trigger] self.locations@[k]).id != id,
            decreases self.locations@.len() - j,
        {
            if self.locations[j].id == id {
                return true;
            }
            j = j + 1;
        }
        false
    }

    /// Whether a join row names location `id`.
    pub fn location_id_in_joins(&self, id: u128) -> (r: bool)
        ensures
            r == location_id_joined(self.promotion_locations@, id),
    {
        let mut k: usize = 0;
        while k < self.promotion_locations.len()
            invariant
                k <= self.promotion_locations@.len(),
                forall|m: int| 0 <= m < k ==> (#[trigger] self.promotion_locations@[m]).location_id != id,
            decreases self.promotion_locations@.len() - k,
        {
            if self.promotion_locations[k].location_id == id {
                return true;
            }
            k = k + 1;
        }
        false
    }
}

/// The audit trail only grows, registrations are never removed or reordered,
/// and a registration whose status differs has a new review event whose action
/// sets exactly that status.
pub open spec fn history_kept(old: Store, new: Store) -> bool {
    let n = old.events@.len();
    &&& n <= new.events@.len()
    &&& new.events@.subrange(0, n as int) == old.events@
    &&& old.registrations@.len() <= new.registrations@.len()
    &&& forall|i: int|
        0 <= i < old.registrations@.len() ==> (#[trigger] new.registrations@[i]).id == old.registrations@[i].id
    &&& forall|i: int|
        0 <= i < old.registrations@.len() && (#[trigger] new.registrations@[i]).status
            != old.registrations@[i].status ==> exists|k: int|
            n <= k < new.events@.len() && (#[trigger] new.events@[k]).registration_id
                == old.registrations@[i].id && sets_status(new.events@[k].action, new.registrations@[i].status)
}

/// The action moves any registration to `s`; `Comment` sets no status.
pub open spec fn sets_status(a: ReviewAction, s: BusinessVerificationStatus) -> bool {
    a != ReviewAction::Comment && status_after(a, s) == s
}

/// Registrations that have a location still have one.
pub open spec fn locations_kept(old: Store, new: Store) -> bool {
    forall|reg: u128| #[trigger] has_location(old.locations@, reg) ==> has_location(new.locations@, reg)
}

/// Leaving the store as it is keeps the history.
pub proof fn lemma_history_kept_refl(s: Store)
    ensures
        history_kept(s, s),
        locations_kept(s, s),
{
    assert(s.events@.subrange(0, s.events@.len() as int) =~= s.events@);
}

/// The event that records `req` on registration `reg` at `now`.
pub open spec fn event_for(e: BusinessReviewEvent, id: u128, reg: u128, req: ReviewActionRequest, now: i64) -> bool {
    &&& e.id == id
    &&& e.registration_id == reg
    &&& e.reviewer_id == req.reviewer_id
    &&& e.reviewer_name == req.reviewer_name
    &&& e.action == req.action
    &&& e.notes == req.notes
    &&& e.rejection_reason == req.rejection_reason
    &&& e.created_at == now
}

/// The value given, or the previous one when none is given.
pub open spec fn or_previous<T>(given: Option<T>, previous: Option<T>) -> Option<T> {
    match given {
        Some(v) => Some(v),
        None => previous,
    }
}

/// `new` is `old` after review `req` at `now`: the status follows the action,
/// the rejection reason is the one given, and the reviewed-by fields keep their
/// previous values where the review gives none.  The business reference is
/// left to the caller.
pub open spec fn registration_reviewed(
    old: BusinessRegistration,
    new: BusinessRegistration,
    req: ReviewActionRequest,
    now: i64,
) -> bool {
    &&& new.id == old.id
    &&& new.user_id == old.user_id
    &&& new.name == old.name
    &&& new.category == old.category
    &&& new.address == old.address
    &&& new.description == old.description
    &&& new.phone == old.phone
    &&& new.website == old.website
    &&& new.tax_id == old.tax_id
    &&& new.document_urls == old.document_urls
    &&& new.is_multi_user_team == old.is_multi_user_team
    &&& new.status == status_after(req.action, old.status)
    &&& new.owner_email == old.owner_email
    &&& new.owner_username == old.owner_username
    &&& new.rejection_reason == req.rejection_reason
    &&& new.reviewer_notes == or_previous(req.notes, old.reviewer_notes)
    &&& new.reviewer_id == or_previous(req.reviewer_id, old.reviewer_id)
    &&& new.reviewer_name == or_previous(req.reviewer_name, old.reviewer_name)
    &&& new.submitted_at == old.submitted_at
    &&& new.updated_at == now
}

/// An approval that moves a registration without a business into `Approved`
/// makes one; comments and repeated approvals make none.
pub open spec fn makes_business(old: BusinessRegistration, req: ReviewActionRequest) -> bool {
    &&& req.action == ReviewAction::Approve
    &&& old.status != BusinessVerificationStatus::Approved
    &&& old.business_id is None
}

/// The business made from registration `reg` at `now`.
pub open spec fn business_from(b: Business, id: u128, reg: BusinessRegistration, now: i64) -> bool {
    &&& b.id == id
    &&& b.registration_id == Some(reg.id)
    &&& b.owner_user_id == reg.user_id
    &&& b.business_name == reg.name
    &&& b.category == reg.category
    &&& b.tax_id == reg.tax_id
    &&& b.description == reg.description
    &&& b.website == reg.website
    &&& b.logo_url is None
    &&& b.is_active
    &&& b.metadata@ == "{}"@
    &&& b.created_at == now
    &&& b.updated_at == now
}

/// `new` is `old` after review `req` of registration `registration_id` was
/// applied at `now`: one event appended, the registration reviewed, and the
/// business made on its first approval; nothing else changes.
pub open spec fn review_applied(
    old: Store,
    new: Store,
    registration_id: u128,
    req: ReviewActionRequest,
    event_id: u128,
    business_id: u128,
    now: i64,
) -> bool {
    &&& exists|i: int|
        0 <= i < old.registrations@.len() && old.registrations@[i].id == registration_id && {
            let before = old.registrations@[i];
            let after = new.registrations@[i];
            &&& new.registrations@ == old.registrations@.update(i, after)
            &&& registration_reviewed(before, after, req, now)
            &&& new.events@.len() == old.events@.len() + 1
            &&& new.events@.drop_last() == old.events@
            &&& event_for(new.events@.last(), event_id, registration_id, req, now)
            &&& if makes_business(before, req) {
                &&& after.business_id == Some(business_id)
                &&& new.businesses@.len() == old.businesses@.len() + 1
                &&& new.businesses@.drop_last() == old.businesses@
                &&& business_from(new.businesses@.last(), business_id, before, now)
            } else {
                &&& after.business_id == before.business_id
                &&& new.businesses@ == old.businesses@
            }
        }
    &&& new.locations@ == old.locations@
    &&& new.promotions@ == old.promotions@
    &&& new.promotion_locations@ == old.promotion_locations@
    &&& new.units@ == old.units@
    &&& new.companies@ == old.companies@
    &&& new.admins@ == old.admins@
}

/// Some business has identifier `id`.
pub open spec fn business_id_used(bs: Seq<Business>, id: u128) -> bool {
    exists|i: int| 0 <= i < bs.len() && (#[trigger] bs[i]).id == id
}

/// Some review event has identifier `id`.
pub open spec fn event_id_used(es: Seq<BusinessReviewEvent>, id: u128) -> bool {
    exists|i: int| 0 <= i < es.len() && (#[trigger] es[i]).id == id
}

/// Where a review stops on the rules, if it does, in the order they are
/// checked: the registration must exist, the review must be valid, and the
/// action must keep the status or move it along an allowed transition.
pub open spec fn review_rule_failure(s: Store, registration_id: u128, req: ReviewActionRequest) -> Option<ServiceError> {
    if !registration_exists(s.registrations@, registration_id) {
        Some(ServiceError::NotFound(Missing::Registration))
    } else if req.problem() is Some {
        Some(ServiceError::Validation(req.problem()->0))
    } else if !action_allowed(req.action, registration_named(s, registration_id).status) {
        Some(ServiceError::Conflict(ConflictKind::TransitionNotAllowed))
    } else {
        None
    }
}

/// The registration with identifier `id`, when there is one.
pub open spec fn registration_named(s: Store, id: u128) -> BusinessRegistration {
    choose|r: BusinessRegistration| s.registrations@.contains(r) && r.id == id
}

/// Where `record_review_event` stops, if it does: on the rules, or on an
/// identifier already in use.
pub open spec fn review_failure(
    s: Store,
    registration_id: u128,
    req: ReviewActionRequest,
    event_id: u128,
    business_id: u128,
) -> Option<ServiceError> {
    match review_rule_failure(s, registration_id, req) {
        Some(e) => Some(e),
        None => if event_id_used(s.events@, event_id) || (makes_business(registration_named(s, registration_id), req)
            && business_id_used(s.businesses@, business_id)) {
            Some(ServiceError::DuplicateKey)
        } else {
            None
        },
    }
}

impl Store {
    fn event_id_taken(&self, id: u128) -> (r: bool)
        ensures
            r == event_id_used(self.events@, id),
    {
        let mut i: usize = 0;
        while i < self.events.len()
            invariant
                i <= self.events@.len(),
                forall|k: int| 0 <= k < i ==> (#[trigger] self.events@[k]).id != id,
            decreases self.events@.len() - i,
        {
            if self.events[i].id == id {
                return true;
            }
            i = i + 1;
        }
        false
    }

    fn business_id_taken(&self, id: u128) -> (r: bool)
        ensures
            r == business_id_used(self.businesses@, id),
    {
        let mut i: usize = 0;
        while i < self.businesses.len()
            invariant
                i <= self.businesses@.len(),
                forall|k: int| 0 <= k < i ==> (#[trigger] self.businesses@[k]).id != id,
            decreases self.businesses@.len() - i,
        {
            if self.businesses[i].id == id {
                return true;
            }
            i = i + 1;
        }
        false
    }

    /// Applies review `req` to registration `registration_id` in one
    /// transaction: the event (identifier `event_id`, time `now`) is appended to
    /// the trail and the registration takes the status the action sets.  The
    /// first approval of a registration without a business also records the
    /// business (identifier `business_id`) made from it; approving again makes
    /// no second one.
    ///
    /// Fails, writing nothing, when the registration does not exist, the review
    /// is invalid, the action would move the status along no allowed
    /// transition, or an identifier is taken.
    pub fn record_review_event(
        &mut self,
        registration_id: u128,
        req: ReviewActionRequest,
        event_id: u128,
        business_id: u128,
        now: i64,
    ) -> (r: Result<(), ServiceError>)
        requires
            old(self).wf(),
        ensures
            final(self).wf(),
            history_kept(*old(self), *final(self)),
            locations_kept(*old(self), *final(self)),
            match review_failure(*old(self), registration_id, req, event_id, business_id) {
                Some(e) => r == Err::<(), ServiceError>(e) && *final(self) == *old(self),
                None => r is Ok && review_applied(
                    *old(self),
                    *final(self),
                    registration_id,
                    req,
                    event_id,
                    business_id,
                    now,
                ),
            },
    {
        proof {
            lemma_history_kept_refl(*self);
        }
        let idx = match self.registration_index(registration_id) {
            Some(i) => i,
            None => return Err(ServiceError::NotFound(Missing::Registration)),
        };
        proof {
            assert(self.registrations@.contains(self.registrations@[idx as int]));
            let reg = registration_named(*self, registration_id);
            let w = choose|k: int| 0 <= k < self.registrations@.len() && self.registrations@[k] == reg;
            assert(self.registrations@[w].id == self.registrations@[idx as int].id);
            assert(reg == self.registrations@[idx as int]);
        }
        if let Err(e) = req.validate() {
            return Err(ServiceError::Validation(e));
        }
        let current = self.registrations[idx].status;
        let next = req.action.target_status(current);
        if !(next == current || current.can_transition_to(next)) {
            return Err(ServiceError::Conflict(ConflictKind::TransitionNotAllowed));
        }
        let make_business = matches!(req.action, ReviewAction::Approve)
            && !matches!(current, BusinessVerificationStatus::Approved)
            && self.registrations[idx].business_id.is_none();
        if self.event_id_taken(event_id) || (make_business && self.business_id_taken(business_id)) {
            return Err(ServiceError::DuplicateKey);
        }
        let ghost before = *self;
        let event = BusinessReviewEvent {
            id: event_id,
            registration_id,
            reviewer_id: req.reviewer_id,
            reviewer_name: copy_text(&req.reviewer_name),
            action: req.action,
            notes: copy_text(&req.notes),
            rejection_reason: copy_text(&req.rejection_reason),
            created_at: now,
        };
        self.events.push(event);
        if make_business {
            let reg = &self.registrations[idx];
            let business = Business {
                id: business_id,
                registration_id: Some(registration_id),
                owner_user_id: reg.user_id,
                business_name: reg.name.clone(),
                category: reg.category.clone(),
                tax_id: copy_text(&reg.tax_id),
                description: copy_text(&reg.description),
                website: copy_text(&reg.website),
                logo_url: None,
                is_active: true,
                metadata: "{}".to_owned(),
                created_at: now,
                updated_at: now,
            };
            self.businesses.push(business);
            self.registrations[idx].business_id = Some(business_id);
        }
        let reg = &mut self.registrations[idx];
        reg.status = next;
        reg.rejection_reason = req.rejection_reason;
        if req.notes.is_some() {
            reg.reviewer_notes = req.notes;
        }
        if req.reviewer_id.is_some() {
            reg.reviewer_id = req.reviewer_id;
        }
        if req.reviewer_name.is_some() {
            reg.reviewer_name = req.reviewer_name;
        }
        reg.updated_at = now;
        proof {
            let n = before.events@.len();
            assert(self.events@.subrange(0, n as int) =~= before.events@);
            assert(self.events@.drop_last() =~= before.events@);
            assert(self.registrations@ =~= before.registrations@.update(idx as int, self.registrations@[idx as int]));
            if self.registrations@[idx as int].status != before.registrations@[idx as int].status {
                assert(self.events@[n as int].registration_id == registration_id);
            }
            let i = idx as int;
            let b = before.registrations@[i];
            let a = self.registrations@[i];
            assert(registration_reviewed(b, a, req, now));
            assert(event_for(self.events@.last(), event_id, registration_id, req, now));
            if makes_business(b, req) {
                assert(self.businesses@.drop_last() =~= before.businesses@);
                assert(business_from(self.businesses@.last(), business_id, b, now));
            }
            assert(review_applied(before, *self, registration_id, req, event_id, business_id, now));
            assert forall|j: int| 0 <= j < self.locations@.len() implies registration_exists(
                self.registrations@,
                (#[trigger] self.locations@[j]).registration_id,
            ) by {
                let w = choose|i: int|
                    0 <= i < before.registrations@.len() && (#[trigger] before.registrations@[i]).id
                        == self.locations@[j].registration_id;
                assert(self.registrations@[w].id == before.registrations@[w].id);
            }
            assert forall|k: int| 0 <= k < self.events@.len() implies registration_exists(
                self.registrations@,
                (#[trigger] self.events@[k]).registration_id,
            ) by {
                if k < before.events@.len() {
                    assert(self.events@[k] == before.events@[k]);
                    let w = choose|i: int|
                        0 <= i < before.registrations@.len() && (#[trigger] before.registrations@[i]).id
                            == self.events@[k].registration_id;
                    assert(self.registrations@[w].id == before.registrations@[w].id);
                } else {
                    assert(self.registrations@[idx as int].id == registration_id);
                }
            }
            assert forall|p: int| 0 <= p < self.promotions@.len() implies registration_exists(
                self.registrations@,
                (#[trigger] self.promotions@[p]).registration_id,
            ) by {
                let w = choose|i: int|
                    0 <= i < before.registrations@.len() && (#[trigger] before.registrations@[i]).id
                        == self.promotions@[p].registration_id;
                assert(self.registrations@[w].id == before.registrations@[w].id);
            }
        }
        Ok(())
    }

    /// Applies review `req` now, under fresh random identifiers.  Fails on the
    /// rules as `record_review_event` does; it may also fail, writing nothing,
    /// when a random identifier is already in use.
    pub fn submit_review_action(&mut self, registration_id: u128, req: ReviewActionRequest) -> (r: Result<
        (),
        ServiceError,
    >)
        requires
            old(self).wf(),
        ensures
            final(self).wf(),
            history_kept(*old(self), *final(self)),
            locations_kept(*old(self), *final(self)),
            match review_rule_failure(*old(self), registration_id, req) {
                Some(e) => r == Err::<(), ServiceError>(e) && *final(self) == *old(self),
                None => (r == Err::<(), ServiceError>(ServiceError::DuplicateKey) && *final(self) == *old(self)) || (
                r is Ok && exists|event_id: u128, business_id: u128, now: i64|
                    review_applied(*old(self), *final(self), registration_id, req, event_id, business_id, now)),
            },
    {
        let event_id = random_id();
        let business_id = random_id();
        let now = now_micros();
        self.record_review_event(registration_id, req, event_id, business_id, now)
    }
}

} // verus!
