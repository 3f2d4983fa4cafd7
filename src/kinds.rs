//! Closed sets of values stored as text columns, and the review state machine.

use vstd::prelude::*;

verus! {

/// Where a registration stands in the verification workflow.
#[derive(Debug, Clone, Copy, PartialEq, Eq, Structural)]
pub enum BusinessVerificationStatus {
    Pending,
    UnderReview,
    Approved,
    Rejected,
    Suspended,
}

/// An action taken on a registration under review.
#[derive(Debug, Clone, Copy, PartialEq, Eq, Structural)]
pub enum ReviewAction {
    Approve,
    Reject,
    RequestMoreInfo,
    Suspend,
    Resume,
    Comment,
}

/// Category of a promotion.
#[derive(Debug, Clone, Copy, PartialEq, Eq, Structural)]
pub enum BusinessPromotionType {
    Discount,
    Contest,
    Event,
    Challenge,
}

/// Lifecycle status of a promotion.
#[derive(Debug, Clone, Copy, PartialEq, Eq, Structural)]
pub enum BusinessPromotionStatus {
    Draft,
    Scheduled,
    Active,
    Expired,
    Cancelled,
}

/// Whether a promotion applies to the whole business or to chosen locations.
#[derive(Debug, Clone, Copy, PartialEq, Eq, Structural)]
pub enum BusinessPromotionScope {
    Business,
    Location,
}

/// Role of a location administrator.
#[derive(Debug, Clone, Copy, PartialEq, Eq, Structural)]
pub enum LocationAdminRole {
    Owner,
    Manager,
    Staff,
}

/// The status a registration has after `action`, given its status `current`.
pub open spec fn status_after(action: ReviewAction, current: BusinessVerificationStatus) -> BusinessVerificationStatus {
    match action {
        ReviewAction::Approve => BusinessVerificationStatus::Approved,
        ReviewAction::Reject => BusinessVerificationStatus::Rejected,
        ReviewAction::RequestMoreInfo => BusinessVerificationStatus::UnderReview,
        ReviewAction::Suspend => BusinessVerificationStatus::Suspended,
        ReviewAction::Resume => BusinessVerificationStatus::UnderReview,
        ReviewAction::Comment => current,
    }
}

/// The transitions between two different statuses that the workflow allows.
pub open spec fn legal_transition(from: BusinessVerificationStatus, to: BusinessVerificationStatus) -> bool {
    match from {
        BusinessVerificationStatus::Pending => to != BusinessVerificationStatus::Pending,
        BusinessVerificationStatus::UnderReview => to == BusinessVerificationStatus::Approved
            || to == BusinessVerificationStatus::Rejected
            || to == BusinessVerificationStatus::Suspended,
        BusinessVerificationStatus::Approved => to == BusinessVerificationStatus::Suspended,
        BusinessVerificationStatus::Rejected => false,
        BusinessVerificationStatus::Suspended => to == BusinessVerificationStatus::UnderReview,
    }
}

/// An action is accepted when it keeps the status or moves it along a legal
/// transition.
pub open spec fn action_allowed(action: ReviewAction, current: BusinessVerificationStatus) -> bool {
    let next = status_after(action, current);
    next == current || legal_transition(current, next)
}

impl ReviewAction {
    /// The status a registration gets from this action; `Comment` keeps `current`.
    pub fn target_status(&self, current: BusinessVerificationStatus) -> (r: BusinessVerificationStatus)
        ensures
            r == status_after(*self, current),
    {
        match self {
            ReviewAction::Approve => BusinessVerificationStatus::Approved,
            ReviewAction::Reject => BusinessVerificationStatus::Rejected,
            ReviewAction::RequestMoreInfo => BusinessVerificationStatus::UnderReview,
            ReviewAction::Suspend => BusinessVerificationStatus::Suspended,
            ReviewAction::Resume => BusinessVerificationStatus::UnderReview,
            ReviewAction::Comment => current,
        }
    }

    pub open spec fn spec_name(self) -> &'static str {
        match self {
            ReviewAction::Approve => "approve",
            ReviewAction::Reject => "reject",
            ReviewAction::RequestMoreInfo => "request_more_info",
            ReviewAction::Suspend => "suspend",
            ReviewAction::Resume => "resume",
            ReviewAction::Comment => "comment",
        }
    }

    /// The text stored for this action.
    pub fn as_str(&self) -> (r: &'static str)
        ensures
            r == self.spec_name(),
    {
        match self {
            ReviewAction::Approve => "approve",
            ReviewAction::Reject => "reject",
            ReviewAction::RequestMoreInfo => "request_more_info",
            ReviewAction::Suspend => "suspend",
            ReviewAction::Resume => "resume",
            ReviewAction::Comment => "comment",
        }
    }
}

impl BusinessVerificationStatus {
    /// Whether the workflow allows moving from this status to `to`.
    pub fn can_transition_to(&self, to: BusinessVerificationStatus) -> (r: bool)
        ensures
            r == legal_transition(*self, to),
    {
        match self {
            BusinessVerificationStatus::Pending => !matches!(to, BusinessVerificationStatus::Pending),
            BusinessVerificationStatus::UnderReview => matches!(
                to,
                BusinessVerificationStatus::Approved | BusinessVerificationStatus::Rejected
                    | BusinessVerificationStatus::Suspended
            ),
            BusinessVerificationStatus::Approved => matches!(to, BusinessVerificationStatus::Suspended),
            BusinessVerificationStatus::Rejected => false,
            BusinessVerificationStatus::Suspended => matches!(to, BusinessVerificationStatus::UnderReview),
        }
    }

    /// Whether registrations in this status still wait for a decision.
    pub open spec fn spec_awaits_review(self) -> bool {
        self == BusinessVerificationStatus::Pending || self == BusinessVerificationStatus::UnderReview
    }

    pub fn awaits_review(&self) -> (r: bool)
        ensures
            r == self.spec_awaits_review(),
    {
        matches!(self, BusinessVerificationStatus::Pending | BusinessVerificationStatus::UnderReview)
    }

    pub open spec fn spec_name(self) -> &'static str {
        match self {
            BusinessVerificationStatus::Pending => "pending",
            BusinessVerificationStatus::UnderReview => "under_review",
            BusinessVerificationStatus::Approved => "approved",
            BusinessVerificationStatus::Rejected => "rejected",
            BusinessVerificationStatus::Suspended => "suspended",
        }
    }

    /// The text stored for this status.
    pub fn as_str(&self) -> (r: &'static str)
        ensures
            r == self.spec_name(),
    {
        match self {
            BusinessVerificationStatus::Pending => "pending",
            BusinessVerificationStatus::UnderReview => "under_review",
            BusinessVerificationStatus::Approved => "approved",
            BusinessVerificationStatus::Rejected => "rejected",
            BusinessVerificationStatus::Suspended => "suspended",
        }
    }
}

impl BusinessPromotionType {
    pub open spec fn spec_name(self) -> &'static str {
        match self {
            BusinessPromotionType::Discount => "discount",
            BusinessPromotionType::Contest => "contest",
            BusinessPromotionType::Event => "event",
            BusinessPromotionType::Challenge => "challenge",
        }
    }

    /// The text stored for this promotion type.
    pub fn as_str(&self) -> (r: &'static str)
        ensures
            r == self.spec_name(),
    {
        match self {
            BusinessPromotionType::Discount => "discount",
            BusinessPromotionType::Contest => "contest",
            BusinessPromotionType::Event => "event",
            BusinessPromotionType::Challenge => "challenge",
        }
    }
}

impl BusinessPromotionStatus {
    pub open spec fn spec_name(self) -> &'static str {
        match self {
            BusinessPromotionStatus::Draft => "draft",
            BusinessPromotionStatus::Scheduled => "scheduled",
            BusinessPromotionStatus::Active => "active",
            BusinessPromotionStatus::Expired => "expired",
            BusinessPromotionStatus::Cancelled => "cancelled",
        }
    }

    /// The text stored for this promotion status.
    pub fn as_str(&self) -> (r: &'static str)
        ensures
            r == self.spec_name(),
    {
        match self {
            BusinessPromotionStatus::Draft => "draft",
            BusinessPromotionStatus::Scheduled => "scheduled",
            BusinessPromotionStatus::Active => "active",
            BusinessPromotionStatus::Expired => "expired",
            BusinessPromotionStatus::Cancelled => "cancelled",
        }
    }
}

impl BusinessPromotionScope {
    pub open spec fn spec_name(self) -> &'static str {
        match self {
            BusinessPromotionScope::Business => "business",
            BusinessPromotionScope::Location => "location",
        }
    }

    /// The text stored for this scope.
    pub fn as_str(&self) -> (r: &'static str)
        ensures
            r == self.spec_name(),
    {
        match self {
            BusinessPromotionScope::Business => "business",
            BusinessPromotionScope::Location => "location",
        }
    }
}

impl LocationAdminRole {
    pub open spec fn spec_name(self) -> &'static str {
        match self {
            LocationAdminRole::Owner => "owner",
            LocationAdminRole::Manager => "manager",
            LocationAdminRole::Staff => "staff",
        }
    }

    /// The text stored for this role.
    pub fn as_str(&self) -> (r: &'static str)
        ensures
            r == self.spec_name(),
    {
        match self {
            LocationAdminRole::Owner => "owner",
            LocationAdminRole::Manager => "manager",
            LocationAdminRole::Staff => "staff",
        }
    }
}

} // verus!
