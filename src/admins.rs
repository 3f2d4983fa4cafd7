//! Administrators of locations.  A grant is withdrawn by clearing its
//! `is_active` flag; rows are never deleted.

use vstd::prelude::*;
use crate::errors::{Field, Missing, ServiceError, ValidationError};
use crate::kinds::LocationAdminRole;
use crate::outside::{email_accepted, email_is_valid, now_micros, random_id};
use crate::promotion_requests::as_result;
use crate::records::LocationAdmin;
use crate::requests::{chars_within, text_within};
use crate::store::{history_kept, lemma_history_kept_refl, location_id_used, locations_kept, Store};

verus! {

/// Payload granting a role over a location to a user.
#[derive(Debug, Clone)]
pub struct AddLocationAdminRequest {
    pub user_id: u128,
    pub user_email: String,
    pub user_username: String,
    pub role: LocationAdminRole,
}

impl AddLocationAdminRequest {
    /// The first field rule the payload breaks: an e-mail address, and a user
    /// name of 3 to 60 characters.
    pub open spec fn problem(&self) -> Option<ValidationError> {
        self.problem_given(email_accepted(self.user_email@))
    }

    /// The first field rule the payload breaks, given whether its e-mail
    /// address is accepted.
    pub open spec fn problem_given(&self, email_ok: bool) -> Option<ValidationError> {
        if !email_ok {
            Some(ValidationError::Email(Field::UserEmail))
        } else if !chars_within(self.user_username@, 3, 60) {
            Some(ValidationError::Length(Field::UserUsername))
        } else {
            None
        }
    }

    /// Checks the field rules.
    pub fn validate(&self) -> (r: Result<(), ValidationError>)
        ensures
            r == as_result(self.problem()),
    {
        let email_ok = email_is_valid(&self.user_email);
        self.validate_given_email(email_ok)
    }

    /// Checks the field rules once the e-mail address has been checked,
    /// `email_ok` telling whether it was accepted.
    pub fn validate_given_email(&self, email_ok: bool) -> (r: Result<(), ValidationError>)
        ensures
            r == as_result(self.problem_given(email_ok)),
    {
        if !email_ok {
            Err(ValidationError::Email(Field::UserEmail))
        } else if !text_within(&self.user_username, 3, 60) {
            Err(ValidationError::Length(Field::UserUsername))
        } else {
            Ok(())
        }
    }

    /// The active grant over `location_id` made now by `granted_by`, under a
    /// fresh random identifier.
    pub fn into_new_admin(
        self,
        location_id: u128,
        granted_by: Option<u128>,
        granted_by_username: Option<String>,
    ) -> (r: LocationAdmin)
        ensures
            r.location_id == location_id,
            r.user_id == self.user_id,
            r.user_email == self.user_email,
            r.user_username == self.user_username,
            r.role == self.role,
            r.granted_by == granted_by,
            r.granted_by_username == granted_by_username,
            r.is_active,
            r.granted_at == r.created_at && r.created_at == r.updated_at,
    {
        let now = now_micros();
        LocationAdmin {
            id: random_id(),
            location_id,
            user_id: self.user_id,
            user_email: self.user_email,
            user_username: self.user_username,
            role: self.role,
            granted_by,
            granted_by_username,
            is_active: true,
            granted_at: now,
            created_at: now,
            updated_at: now,
        }
    }
}

/// The grants after every active grant of `user` over `loc` is withdrawn at `now`.
pub open spec fn admins_withdrawn(admins: Seq<LocationAdmin>, loc: u128, user: u128, now: i64) -> Seq<LocationAdmin> {
    Seq::new(
        admins.len(),
        |j: int|
            if admins[j].location_id == loc && admins[j].user_id == user {
                LocationAdmin { is_active: false, updated_at: now, ..admins[j] }
            } else {
                admins[j]
            },
    )
}

/// Only the administrators differ.
pub open spec fn only_admins_changed(old: Store, new: Store) -> bool {
    &&& new.registrations@ == old.registrations@
    &&& new.events@ == old.events@
    &&& new.businesses@ == old.businesses@
    &&& new.locations@ == old.locations@
    &&& new.promotions@ == old.promotions@
    &&& new.promotion_locations@ == old.promotion_locations@
    &&& new.companies@ == old.companies@
    &&& new.units@ == old.units@
}

impl Store {
    /// Records a grant; the location must exist.
    pub fn add_location_admin(&mut self, admin: LocationAdmin) -> (r: Result<(), ServiceError>)
        requires
            old(self).wf(),
        ensures
            final(self).wf(),
            history_kept(*old(self), *final(self)),
            locations_kept(*old(self), *final(self)),
            !location_id_used(old(self).locations@, admin.location_id) ==> r == Err::<(), ServiceError>(
                ServiceError::NotFound(Missing::Location),
            ) && *final(self) == *old(self),
            location_id_used(old(self).locations@, admin.location_id) ==> r is Ok && only_admins_changed(
                *old(self),
                *final(self),
            ) && final(self).admins@ == old(self).admins@.push(admin),
    {
        proof {
            lemma_history_kept_refl(*self);
        }
        if !self.location_id_taken(admin.location_id) {
            return Err(ServiceError::NotFound(Missing::Location));
        }
        self.admins.push(admin);
        proof {
            lemma_history_kept_refl(*self);
        }
        Ok(())
    }

    /// Withdraws, at `now`, every grant of user `user` over location `loc`.
    pub fn remove_location_admin(&mut self, loc: u128, user: u128, now: i64)
        requires
            old(self).wf(),
        ensures
            final(self).wf(),
            history_kept(*old(self), *final(self)),
            locations_kept(*old(self), *final(self)),
            only_admins_changed(*old(self), *final(self)),
            final(self).admins@ == admins_withdrawn(old(self).admins@, loc, user, now),
    {
        proof {
            lemma_history_kept_refl(*self);
        }
        let ghost start = self.admins@;
        let mut j: usize = 0;
        while j < self.admins.len()
            invariant
                j <= self.admins@.len(),
                self.admins@.len() == start.len(),
                start == old(self).admins@,
                forall|k: int| 0 <= k < j ==> #[trigger] self.admins@[k] == admins_withdrawn(start, loc, user, now)[k],
                forall|k: int| j <= k < start.len() ==> #[trigger] self.admins@[k] == start[k],
                only_admins_changed(*old(self), *self),
            decreases self.admins@.len() - j,
        {
            if self.admins[j].location_id == loc && self.admins[j].user_id == user {
                self.admins[j].is_active = false;
                self.admins[j].updated_at = now;
            }
            j = j + 1;
        }
        proof {
            assert(self.admins@ =~= admins_withdrawn(start, loc, user, now));
            assert(self.events@.subrange(0, self.events@.len() as int) =~= self.events@);
        }
    }
}

} // verus!
