//! Inbound payloads: their field rules, the business rules that relate their
//! fields, and the records they become.

use vstd::prelude::*;
use vstd::string::*;
use crate::errors::{Field, ValidationError};
use crate::kinds::{BusinessVerificationStatus, ReviewAction};
use crate::outside::{email_accepted, email_is_valid, now_micros, random_id, trim_text, trimmed};
use crate::records::{copy_text, Business, BusinessLocation, BusinessRegistration};

verus! {

/// The text has between `min` and `max` characters.
pub open spec fn chars_within(s: Seq<char>, min: int, max: int) -> bool {
    min <= s.len() && s.len() <= max
}

/// An absent text passes; a present one has between `min` and `max` characters.
pub open spec fn opt_chars_within(o: Option<String>, min: int, max: int) -> bool {
    match o {
        Some(s) => chars_within(s@, min, max),
        None => true,
    }
}

/// An absent number passes; a present one lies in `min..=max`.
pub open spec fn opt_in_range(o: Option<i32>, min: int, max: int) -> bool {
    match o {
        Some(v) => min <= v && v <= max,
        None => true,
    }
}

pub(crate) fn text_within(s: &String, min: usize, max: usize) -> (r: bool)
    ensures
        r == chars_within(s@, min as int, max as int),
{
    let n = s.as_str().unicode_len();
    min <= n && n <= max
}

pub(crate) fn text_at_least(s: &String, min: usize) -> (r: bool)
    ensures
        r == (s@.len() >= min),
{
    s.as_str().unicode_len() >= min
}

pub(crate) fn opt_text_within(o: &Option<String>, min: usize, max: usize) -> (r: bool)
    ensures
        r == opt_chars_within(*o, min as int, max as int),
{
    match o {
        Some(s) => text_within(s, min, max),
        None => true,
    }
}

pub(crate) fn opt_number_within(o: Option<i32>, min: i32, max: i32) -> (r: bool)
    ensures
        r == opt_in_range(o, min as int, max as int),
{
    match o {
        Some(v) => min <= v && v <= max,
        None => true,
    }
}

/// Payload of a new location, on its own or inside a registration.
#[derive(Debug, Clone)]
pub struct CreateLocationRequest {
    pub label: String,
    pub formatted_address: String,
    pub street: Option<String>,
    pub city: Option<String>,
    pub state_region: Option<String>,
    pub postal_code: Option<String>,
    pub country: Option<String>,
    pub latitude_e7: Option<i64>,
    pub longitude_e7: Option<i64>,
    pub google_place_id: Option<String>,
    pub timezone: Option<String>,
    pub phone: Option<String>,
    pub is_primary: bool,
    pub notes: Option<String>,
    pub metadata: Option<String>,
}

/// The first field rule a location payload breaks, if any.
pub open spec fn location_fields_problem(label: Seq<char>, formatted_address: Seq<char>) -> Option<ValidationError> {
    if !chars_within(label, 2, 120) {
        Some(ValidationError::Length(Field::Label))
    } else if formatted_address.len() < 5 {
        Some(ValidationError::Length(Field::FormattedAddress))
    } else {
        None
    }
}

fn check_location_fields(label: &String, formatted_address: &String) -> (r: Result<(), ValidationError>)
    ensures
        r == match location_fields_problem(label@, formatted_address@) {
            Some(e) => Err(e),
            None => Ok::<(), ValidationError>(()),
        },
{
    if !text_within(label, 2, 120) {
        Err(ValidationError::Length(Field::Label))
    } else if !text_at_least(formatted_address, 5) {
        Err(ValidationError::Length(Field::FormattedAddress))
    } else {
        Ok(())
    }
}

/// Metadata given as JSON text, or an empty JSON object.
pub open spec fn metadata_or_empty(m: Option<String>) -> Seq<char> {
    match m {
        Some(s) => s@,
        None => "{}"@,
    }
}

fn metadata_text(m: Option<String>) -> (r: String)
    ensures
        r@ == metadata_or_empty(m),
{
    match m {
        Some(s) => s,
        None => "{}".to_owned(),
    }
}

/// `loc` is the location that `req` describes, under `registration_id`.
pub open spec fn location_from_request(
    loc: BusinessLocation,
    req: CreateLocationRequest,
    registration_id: u128,
    is_primary: bool,
) -> bool {
    &&& loc.registration_id == registration_id
    &&& loc.business_id is None
    &&& loc.label == req.label
    &&& loc.formatted_address == req.formatted_address
    &&& loc.street == req.street
    &&& loc.city == req.city
    &&& loc.state_region == req.state_region
    &&& loc.postal_code == req.postal_code
    &&& loc.country == req.country
    &&& loc.latitude_e7 == req.latitude_e7
    &&& loc.longitude_e7 == req.longitude_e7
    &&& loc.google_place_id == req.google_place_id
    &&& loc.timezone == req.timezone
    &&& loc.phone == req.phone
    &&& loc.is_primary == is_primary
    &&& loc.notes == req.notes
    &&& loc.metadata@ == metadata_or_empty(req.metadata)
    &&& loc.created_at == loc.updated_at
}

impl CreateLocationRequest {
    pub open spec fn problem(&self) -> Option<ValidationError> {
        location_fields_problem(self.label@, self.formatted_address@)
    }

    /// Checks the field rules: a label of 2 to 120 characters and an address of
    /// at least 5.
    pub fn validate(&self) -> (r: Result<(), ValidationError>)
        ensures
            r == match self.problem() {
                Some(e) => Err(e),
                None => Ok::<(), ValidationError>(()),
            },
    {
        check_location_fields(&self.label, &self.formatted_address)
    }

    /// The new location of `registration_id`; it is primary when the payload
    /// asks for it or when `primary_by_default` holds.  Its identifier is fresh
    /// and random, its times are now.
    pub fn into_new_location(self, registration_id: u128, primary_by_default: bool) -> (r: BusinessLocation)
        ensures
            location_from_request(r, self, registration_id, self.is_primary || primary_by_default),
    {
        let now = now_micros();
        BusinessLocation {
            id: random_id(),
            registration_id,
            business_id: None,
            label: self.label,
            formatted_address: self.formatted_address,
            street: self.street,
            city: self.city,
            state_region: self.state_region,
            postal_code: self.postal_code,
            country: self.country,
            latitude_e7: self.latitude_e7,
            longitude_e7: self.longitude_e7,
            google_place_id: self.google_place_id,
            timezone: self.timezone,
            phone: self.phone,
            is_primary: self.is_primary || primary_by_default,
            notes: self.notes,
            metadata: metadata_text(self.metadata),
            created_at: now,
            updated_at: now,
        }
    }
}

/// Payload that replaces the editable fields of a location.
#[derive(Debug, Clone)]
pub struct UpdateLocationRequest {
    pub label: String,
    pub formatted_address: String,
    pub street: Option<String>,
    pub city: Option<String>,
    pub state_region: Option<String>,
    pub postal_code: Option<String>,
    pub country: Option<String>,
    pub latitude_e7: Option<i64>,
    pub longitude_e7: Option<i64>,
    pub google_place_id: Option<String>,
    pub timezone: Option<String>,
    pub phone: Option<String>,
    pub is_primary: bool,
    pub notes: Option<String>,
    pub metadata: Option<String>,
}

/// `new` is `old` with the editable fields taken from `req` and `updated_at` set.
pub open spec fn location_updated(
    old: BusinessLocation,
    new: BusinessLocation,
    req: UpdateLocationRequest,
    now: i64,
) -> bool {
    &&& new.id == old.id
    &&& new.registration_id == old.registration_id
    &&& new.business_id == old.business_id
    &&& new.label == req.label
    &&& new.formatted_address == req.formatted_address
    &&& new.street == req.street
    &&& new.city == req.city
    &&& new.state_region == req.state_region
    &&& new.postal_code == req.postal_code
    &&& new.country == req.country
    &&& new.latitude_e7 == req.latitude_e7
    &&& new.longitude_e7 == req.longitude_e7
    &&& new.google_place_id == req.google_place_id
    &&& new.timezone == req.timezone
    &&& new.phone == req.phone
    &&& new.is_primary == req.is_primary
    &&& new.notes == req.notes
    &&& new.metadata == (match req.metadata {
        Some(m) => m,
        None => old.metadata,
    })
    &&& new.created_at == old.created_at
    &&& new.updated_at == now
}

impl UpdateLocationRequest {
    pub open spec fn problem(&self) -> Option<ValidationError> {
        location_fields_problem(self.label@, self.formatted_address@)
    }

    /// Checks the same field rules as a new location.
    pub fn validate(&self) -> (r: Result<(), ValidationError>)
        ensures
            r == match self.problem() {
                Some(e) => Err(e),
                None => Ok::<(), ValidationError>(()),
            },
    {
        check_location_fields(&self.label, &self.formatted_address)
    }

    /// Writes the payload's fields over `existing`, stamped with `now`.
    pub fn apply_to_existing(&self, existing: &mut BusinessLocation, now: i64)
        ensures
            location_updated(*old(existing), *final(existing), *self, now),
    {
        existing.label = self.label.clone();
        existing.formatted_address = self.formatted_address.clone();
        existing.street = copy_text(&self.street);
        existing.city = copy_text(&self.city);
        existing.state_region = copy_text(&self.state_region);
        existing.postal_code = copy_text(&self.postal_code);
        existing.country = copy_text(&self.country);
        existing.latitude_e7 = self.latitude_e7;
        existing.longitude_e7 = self.longitude_e7;
        existing.google_place_id = copy_text(&self.google_place_id);
        existing.timezone = copy_text(&self.timezone);
        existing.phone = copy_text(&self.phone);
        existing.is_primary = self.is_primary;
        existing.notes = copy_text(&self.notes);
        match &self.metadata {
            Some(m) => {
                existing.metadata = m.clone();
            },
            None => {},
        }
        existing.updated_at = now;
    }
}

/// Payload of a new registration, with the locations it starts with.
#[derive(Debug, Clone)]
pub struct CreateBusinessRegistrationRequest {
    pub user_id: u128,
    pub name: String,
    pub category: String,
    pub address: String,
    pub description: Option<String>,
    pub phone: Option<String>,
    pub website: Option<String>,
    pub tax_id: Option<String>,
    pub document_urls: Vec<String>,
    pub is_multi_user_team: bool,
    pub owner_email: String,
    pub owner_username: String,
    pub locations: Vec<CreateLocationRequest>,
}

/// The first field rule broken by the first `n` location payloads.
pub open spec fn locations_problem(locs: Seq<CreateLocationRequest>, n: int) -> Option<ValidationError>
    decreases n,
{
    if n <= 0 {
        None
    } else {
        match locations_problem(locs, n - 1) {
            Some(e) => Some(e),
            None => locs[n - 1].problem(),
        }
    }
}

/// Once the first `n` location payloads break a rule, longer prefixes report
/// the same one.
proof fn lemma_locations_problem_sticks(locs: Seq<CreateLocationRequest>, n: int, m: int)
    requires
        0 <= n <= m,
        locations_problem(locs, n) is Some,
    ensures
        locations_problem(locs, m) == locations_problem(locs, n),
    decreases m - n,
{
    if n < m {
        lemma_locations_problem_sticks(locs, n, m - 1);
    }
}

/// `reg` is the pending registration that `req` describes.
pub open spec fn registration_from_request(reg: BusinessRegistration, req: CreateBusinessRegistrationRequest) -> bool {
    &&& reg.user_id == req.user_id
    &&& reg.business_id is None
    &&& reg.name == req.name
    &&& reg.category == req.category
    &&& reg.address == req.address
    &&& reg.description == req.description
    &&& reg.phone == req.phone
    &&& reg.website == req.website
    &&& reg.tax_id == req.tax_id
    &&& reg.document_urls == req.document_urls
    &&& reg.is_multi_user_team == req.is_multi_user_team
    &&& reg.status == BusinessVerificationStatus::Pending
    &&& reg.owner_email == req.owner_email
    &&& reg.owner_username == req.owner_username
    &&& reg.rejection_reason is None
    &&& reg.reviewer_notes is None
    &&& reg.reviewer_id is None
    &&& reg.reviewer_name is None
    &&& reg.submitted_at == reg.updated_at
}

impl CreateBusinessRegistrationRequest {
    /// The first rule the payload breaks, field by field in declaration order.
    pub open spec fn problem(&self) -> Option<ValidationError> {
        self.problem_given(email_accepted(self.owner_email@))
    }

    /// The first rule the payload breaks, given whether its owner's e-mail
    /// address is accepted.
    pub open spec fn problem_given(&self, email_ok: bool) -> Option<ValidationError> {
        if !chars_within(self.name@, 3, 120) {
            Some(ValidationError::Length(Field::Name))
        } else if !chars_within(self.category@, 3, 120) {
            Some(ValidationError::Length(Field::Category))
        } else if self.address@.len() < 5 {
            Some(ValidationError::Length(Field::Address))
        } else if !opt_chars_within(self.description, 10, 2000) {
            Some(ValidationError::Length(Field::Description))
        } else if !opt_chars_within(self.tax_id, 4, 64) {
            Some(ValidationError::Length(Field::TaxId))
        } else if self.document_urls@.len() < 1 {
            Some(ValidationError::Length(Field::DocumentUrls))
        } else if !email_ok {
            Some(ValidationError::Email(Field::OwnerEmail))
        } else if !chars_within(self.owner_username@, 3, 60) {
            Some(ValidationError::Length(Field::OwnerUsername))
        } else if self.locations@.len() < 1 {
            Some(ValidationError::Length(Field::Locations))
        } else {
            locations_problem(self.locations@, self.locations@.len() as int)
        }
    }

    /// Checks the field rules of the registration and of each of its locations.
    pub fn validate(&self) -> (r: Result<(), ValidationError>)
        ensures
            r == match self.problem() {
                Some(e) => Err(e),
                None => Ok::<(), ValidationError>(()),
            },
    {
        let email_ok = email_is_valid(&self.owner_email);
        self.validate_given_email(email_ok)
    }

    /// Checks the field rules once the owner's e-mail address has been
    /// checked, `email_ok` telling whether it was accepted.
    pub fn validate_given_email(&self, email_ok: bool) -> (r: Result<(), ValidationError>)
        ensures
            r == match self.problem_given(email_ok) {
                Some(e) => Err(e),
                None => Ok::<(), ValidationError>(()),
            },
    {
        if !text_within(&self.name, 3, 120) {
            return Err(ValidationError::Length(Field::Name));
        }
        if !text_within(&self.category, 3, 120) {
            return Err(ValidationError::Length(Field::Category));
        }
        if !text_at_least(&self.address, 5) {
            return Err(ValidationError::Length(Field::Address));
        }
        if !opt_text_within(&self.description, 10, 2000) {
            return Err(ValidationError::Length(Field::Description));
        }
        if !opt_text_within(&self.tax_id, 4, 64) {
            return Err(ValidationError::Length(Field::TaxId));
        }
        if self.document_urls.len() < 1 {
            return Err(ValidationError::Length(Field::DocumentUrls));
        }
        if !email_ok {
            return Err(ValidationError::Email(Field::OwnerEmail));
        }
        if !text_within(&self.owner_username, 3, 60) {
            return Err(ValidationError::Length(Field::OwnerUsername));
        }
        if self.locations.len() < 1 {
            return Err(ValidationError::Length(Field::Locations));
        }
        let mut i: usize = 0;
        while i < self.locations.len()
            invariant
                0 <= i <= self.locations@.len(),
                locations_problem(self.locations@, i as int) is None,
                self.problem_given(email_ok) == locations_problem(self.locations@, self.locations@.len() as int),
            decreases self.locations@.len() - i,
        {
            let checked = self.locations[i].validate();
            if let Err(e) = checked {
                proof {
                    assert(self.locations@[i as int].problem() == Some(e));
                    assert(locations_problem(self.locations@, i + 1) == Some(e));
                    lemma_locations_problem_sticks(self.locations@, i + 1, self.locations@.len() as int);
                }
                return Err(e);
            }
            i = i + 1;
        }
        Ok(())
    }

    /// The pending registration and its locations.  The first location is
    /// primary by default; the registration's identifier is fresh and random.
    pub fn into_new_registration(self) -> (r: (BusinessRegistration, Vec<BusinessLocation>))
        ensures
            registration_from_request(r.0, self),
            r.1@.len() == self.locations@.len(),
            forall|i: int| 0 <= i < r.1@.len() ==> location_from_request(
                #[trigger] r.1@[i],
                self.locations@[i],
                r.0.id,
                self.locations@[i].is_primary || i == 0,
            ),
    {
        let now = now_micros();
        let id = random_id();
        let ghost requested = self.locations@;
        let count = self.locations.len();
        let mut pending = self.locations;
        let mut made: Vec<BusinessLocation> = Vec::new();
        let mut k: usize = 0;
        while pending.len() > 0
            invariant
                k + pending@.len() == requested.len(),
                requested.len() == count,
                pending@ == requested.subrange(k as int, requested.len() as int),
                made@.len() == k,
                forall|i: int| 0 <= i < k ==> location_from_request(
                    #[trigger] made@[i],
                    requested[i],
                    id,
                    requested[i].is_primary || i == 0,
                ),
            decreases pending@.len(),
        {
            let req = pending.remove(0);
            let loc = req.into_new_location(id, k == 0);
            made.push(loc);
            k = k + 1;
        }
        let registration = BusinessRegistration {
            id,
            user_id: self.user_id,
            business_id: None,
            name: self.name,
            category: self.category,
            address: self.address,
            description: self.description,
            phone: self.phone,
            website: self.website,
            tax_id: self.tax_id,
            document_urls: self.document_urls,
            is_multi_user_team: self.is_multi_user_team,
            status: BusinessVerificationStatus::Pending,
            owner_email: self.owner_email,
            owner_username: self.owner_username,
            rejection_reason: None,
            reviewer_notes: None,
            reviewer_id: None,
            reviewer_name: None,
            submitted_at: now,
            updated_at: now,
        };
        (registration, made)
    }
}

/// A decision on a registration, with who made it.
#[derive(Debug, Clone)]
pub struct ReviewActionRequest {
    pub action: ReviewAction,
    pub notes: Option<String>,
    pub rejection_reason: Option<String>,
    pub reviewer_id: Option<u128>,
    pub reviewer_name: Option<String>,
}

/// The first rule a review breaks, given the acting name with white space
/// trimmed: a rejection gives its reason, and whoever acts has an id and a
/// non-blank name.
pub open spec fn review_problem(
    action: ReviewAction,
    has_reason: bool,
    reviewer_id: Option<u128>,
    trimmed_name: Option<Seq<char>>,
) -> Option<ValidationError> {
    if action == ReviewAction::Reject && !has_reason {
        Some(ValidationError::RejectionReasonRequired)
    } else if reviewer_id is None || trimmed_name is None || trimmed_name->0.len() == 0 {
        Some(ValidationError::ReviewerRequired)
    } else {
        None
    }
}

/// The characters of an optional text.
pub open spec fn text_view(o: Option<&str>) -> Option<Seq<char>> {
    match o {
        Some(s) => Some(s@),
        None => None,
    }
}

/// Checks a review once the acting name has been trimmed.
pub fn check_review(
    action: ReviewAction,
    has_reason: bool,
    reviewer_id: Option<u128>,
    trimmed_name: Option<&str>,
) -> (r: Result<(), ValidationError>)
    ensures
        r == match review_problem(action, has_reason, reviewer_id, text_view(trimmed_name)) {
            Some(e) => Err(e),
            None => Ok::<(), ValidationError>(()),
        },
{
    if matches!(action, ReviewAction::Reject) && !has_reason {
        return Err(ValidationError::RejectionReasonRequired);
    }
    match (reviewer_id, trimmed_name) {
        (Some(_), Some(name)) => {
            if name.unicode_len() == 0 {
                Err(ValidationError::ReviewerRequired)
            } else {
                Ok(())
            }
        },
        _ => Err(ValidationError::ReviewerRequired),
    }
}

impl ReviewActionRequest {
    pub open spec fn problem(&self) -> Option<ValidationError> {
        review_problem(
            self.action,
            self.rejection_reason is Some,
            self.reviewer_id,
            match self.reviewer_name {
                Some(n) => Some(trimmed(n@)),
                None => None,
            },
        )
    }

    /// Checks that a rejection gives its reason and that whoever acts is named.
    pub fn validate(&self) -> (r: Result<(), ValidationError>)
        ensures
            r == match self.problem() {
                Some(e) => Err(e),
                None => Ok::<(), ValidationError>(()),
            },
    {
        let trimmed_name = match &self.reviewer_name {
            Some(n) => Some(trim_text(n.as_str())),
            None => None,
        };
        check_review(self.action, self.rejection_reason.is_some(), self.reviewer_id, trimmed_name)
    }
}

/// Payload of a business created directly rather than by approval.
#[derive(Debug, Clone)]
pub struct CreateBusinessRequest {
    pub registration_id: Option<u128>,
    pub owner_user_id: u128,
    pub business_name: String,
    pub category: String,
    pub tax_id: Option<String>,
    pub description: Option<String>,
    pub website: Option<String>,
    pub logo_url: Option<String>,
}

impl CreateBusinessRequest {
    /// The first field rule the payload breaks: a name and a category of 3 to
    /// 120 characters each.
    pub open spec fn problem(&self) -> Option<ValidationError> {
        if !chars_within(self.business_name@, 3, 120) {
            Some(ValidationError::Length(Field::Name))
        } else if !chars_within(self.category@, 3, 120) {
            Some(ValidationError::Length(Field::Category))
        } else {
            None
        }
    }

    /// Checks the field rules.
    pub fn validate(&self) -> (r: Result<(), ValidationError>)
        ensures
            r == match self.problem() {
                Some(e) => Err(e),
                None => Ok::<(), ValidationError>(()),
            },
    {
        if !text_within(&self.business_name, 3, 120) {
            Err(ValidationError::Length(Field::Name))
        } else if !text_within(&self.category, 3, 120) {
            Err(ValidationError::Length(Field::Category))
        } else {
            Ok(())
        }
    }

    /// The active business the payload describes, created now under a fresh
    /// random identifier, with empty metadata.
    pub fn into_new_business(self) -> (r: Business)
        ensures
            r.registration_id == self.registration_id,
            r.owner_user_id == self.owner_user_id,
            r.business_name == self.business_name,
            r.category == self.category,
            r.tax_id == self.tax_id,
            r.description == self.description,
            r.website == self.website,
            r.logo_url == self.logo_url,
            r.is_active,
            r.metadata@ == "{}"@,
            r.created_at == r.updated_at,
    {
        let now = now_micros();
        Business {
            id: random_id(),
            registration_id: self.registration_id,
            owner_user_id: self.owner_user_id,
            business_name: self.business_name,
            category: self.category,
            tax_id: self.tax_id,
            description: self.description,
            website: self.website,
            logo_url: self.logo_url,
            is_active: true,
            metadata: "{}".to_owned(),
            created_at: now,
            updated_at: now,
        }
    }
}

} // verus!
