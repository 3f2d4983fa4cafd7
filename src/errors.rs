//! The failures an operation reports; each operation fails with exactly one.

use vstd::prelude::*;

verus! {

/// An input field named in a validation failure.
#[derive(Debug, Clone, Copy, PartialEq, Eq, Structural)]
pub enum Field {
    Name,
    Category,
    Address,
    Description,
    TaxId,
    DocumentUrls,
    OwnerEmail,
    OwnerUsername,
    Locations,
    Label,
    FormattedAddress,
    Title,
    Subtitle,
    ImageUrl,
    Prize,
    RewardPoints,
    DiscountPercent,
    MaxClaims,
    PerUserLimit,
    Terms,
    UserEmail,
    UserUsername,
}

/// Malformed or out-of-range input, found before anything is written.
#[derive(Debug, Clone, Copy, PartialEq, Eq, Structural)]
pub enum ValidationError {
    /// A text or a list is shorter or longer than the field allows.
    Length(Field),
    /// A number lies outside the range the field allows.
    Range(Field),
    /// The text is not an e-mail address.
    Email(Field),
    /// A rejection must give its reason.
    RejectionReasonRequired,
    /// A review names who made it: an id and a non-blank name.
    ReviewerRequired,
    /// A promotion must end after it starts.
    EndsNotAfterStart,
    /// A discount percentage is only for discount promotions.
    DiscountNotApplicable,
    /// A discount percentage lies in 0..=100.
    DiscountOutOfRange,
    /// A contest promotion names its prize.
    ContestWithoutPrize,
    /// A location-scoped promotion names at least one location.
    LocationsRequired,
}

/// The kind of record that was looked for and not found.
#[derive(Debug, Clone, Copy, PartialEq, Eq, Structural)]
pub enum Missing {
    Registration,
    Location,
    Promotion,
    Company,
    Unit,
}

/// A business rule that the operation would break.
#[derive(Debug, Clone, Copy, PartialEq, Eq, Structural)]
pub enum ConflictKind {
    /// A registration keeps at least one location.
    LastLocation,
    /// The review action would move the status along no allowed transition.
    TransitionNotAllowed,
}

/// Why an operation failed.
#[derive(Debug, Clone, Copy, PartialEq, Eq, Structural)]
pub enum ServiceError {
    Validation(ValidationError),
    NotFound(Missing),
    Conflict(ConflictKind),
    /// A new row reuses the identifier of an existing one.
    DuplicateKey,
}

} // verus!
