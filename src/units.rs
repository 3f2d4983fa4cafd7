//! Companies and their business units.
//!
//! At most one unit of a company is primary: making one primary clears the
//! flag on its siblings within the same transaction.

use vstd::prelude::*;
use crate::errors::{Missing, ServiceError};
use crate::locations::{not_skipped, others_untouched};
use vstd::string::*;
use crate::kinds::BusinessVerificationStatus;
use crate::outside::{now_micros, random_id, uuid_text, uuid_text_of};
use crate::records::{BusinessCompany, BusinessRegistration, BusinessUnit};
use crate::store::{history_kept, lemma_history_kept_refl, locations_kept, one_primary_unit, Store};

verus! {

/// Payload of a new company, or of the new values of an existing one.
#[derive(Debug, Clone)]
pub struct CreateCompanyRequest {
    pub owner_user_id: u128,
    pub company_name: String,
    pub tax_id: Option<String>,
    pub legal_entity_type: Option<String>,
}

/// Payload of a new business unit, or of the new values of an existing one.
#[derive(Debug, Clone)]
pub struct CreateBusinessUnitRequest {
    pub unit_name: String,
    pub category: String,
    pub is_primary: bool,
}

/// Some company has identifier `id`.
pub open spec fn company_exists(cs: Seq<BusinessCompany>, id: u128) -> bool {
    exists|i: int| 0 <= i < cs.len() && (#[trigger] cs[i]).id == id
}

/// Some unit has identifier `id`.
pub open spec fn unit_exists(us: Seq<BusinessUnit>, id: u128) -> bool {
    exists|i: int| 0 <= i < us.len() && (#[trigger] us[i]).id == id
}

/// Only the companies and units differ.
pub open spec fn only_companies_changed(old: Store, new: Store) -> bool {
    &&& new.registrations@ == old.registrations@
    &&& new.events@ == old.events@
    &&& new.businesses@ == old.businesses@
    &&& new.locations@ == old.locations@
    &&& new.promotions@ == old.promotions@
    &&& new.promotion_locations@ == old.promotion_locations@
    &&& new.admins@ == old.admins@
}

/// The units with the primary flag cleared on every unit of `company` other
/// than the one at position `keep`.
pub open spec fn units_demoted(us: Seq<BusinessUnit>, company: u128, keep: Option<usize>) -> Seq<BusinessUnit> {
    Seq::new(
        us.len(),
        |j: int|
            if us[j].company_id == company && not_skipped(keep, j) {
                BusinessUnit { is_primary: false, ..us[j] }
            } else {
                us[j]
            },
    )
}

/// Only the units differ from `old`, and only as `pred` allows, unit by unit
/// keeping identity and company.
pub open spec fn units_same_identity(old: Seq<BusinessUnit>, new: Seq<BusinessUnit>) -> bool {
    &&& new.len() == old.len()
    &&& forall|j: int| 0 <= j < old.len() ==> (#[trigger] new[j]).id == old[j].id && new[j].company_id == old[j].company_id
}

impl Store {
    /// The position of the company with identifier `id`.
    pub fn company_index(&self, id: u128) -> (r: Option<usize>)
        ensures
            match r {
                Some(i) => i < self.companies@.len() && self.companies@[i as int].id == id,
                None => !company_exists(self.companies@, id),
            },
    {
        let mut i: usize = 0;
        while i < self.companies.len()
            invariant
                i <= self.companies@.len(),
                forall|k: int| 0 <= k < i ==> (#[trigger] self.companies@[k]).id != id,
            decreases self.companies@.len() - i,
        {
            if self.companies[i].id == id {
                return Some(i);
            }
            i = i + 1;
        }
        None
    }

    /// The position of the unit with identifier `id`.
    pub fn unit_index(&self, id: u128) -> (r: Option<usize>)
        ensures
            match r {
                Some(i) => i < self.units@.len() && self.units@[i as int].id == id,
                None => !unit_exists(self.units@, id),
            },
    {
        let mut i: usize = 0;
        while i < self.units.len()
            invariant
                i <= self.units@.len(),
                forall|k: int| 0 <= k < i ==> (#[trigger] self.units@[k]).id != id,
            decreases self.units@.len() - i,
        {
            if self.units[i].id == id {
                return Some(i);
            }
            i = i + 1;
        }
        None
    }

    /// The company with identifier `id`, if there is one.
    pub fn get_company(&self, id: u128) -> (r: Option<&BusinessCompany>)
        ensures
            match r {
                Some(c) => c.id == id && self.companies@.contains(*c),
                None => !company_exists(self.companies@, id),
            },
    {
        match self.company_index(id) {
            Some(i) => {
                proof {
                    assert(self.companies@.contains(self.companies@[i as int]));
                }
                Some(&self.companies[i])
            },
            None => None,
        }
    }

    /// The unit with identifier `id`, if there is one.
    pub fn get_business_unit(&self, id: u128) -> (r: Option<&BusinessUnit>)
        ensures
            match r {
                Some(u) => u.id == id && self.units@.contains(*u),
                None => !unit_exists(self.units@, id),
            },
    {
        match self.unit_index(id) {
            Some(i) => {
                proof {
                    assert(self.units@.contains(self.units@[i as int]));
                }
                Some(&self.units[i])
            },
            None => None,
        }
    }

    /// Clears the primary flag on every unit of `company` other than the one at
    /// position `keep`.
    fn demote_units(&mut self, company: u128, keep: Option<usize>)
        ensures
            final(self).units@ == units_demoted(old(self).units@, company, keep),
            only_companies_changed(*old(self), *final(self)),
            final(self).companies@ == old(self).companies@,
    {
        let ghost start = self.units@;
        let mut j: usize = 0;
        while j < self.units.len()
            invariant
                j <= self.units@.len(),
                self.units@.len() == start.len(),
                start == old(self).units@,
                forall|k: int| 0 <= k < j ==> #[trigger] self.units@[k] == units_demoted(start, company, keep)[k],
                forall|k: int| j <= k < start.len() ==> #[trigger] self.units@[k] == start[k],
                only_companies_changed(*old(self), *self),
                self.companies@ == old(self).companies@,
            decreases self.units@.len() - j,
        {
            let kept = match keep {
                Some(k) => k == j,
                None => false,
            };
            if self.units[j].company_id == company && !kept {
                self.units[j].is_primary = false;
            }
            j = j + 1;
        }
        assert(self.units@ =~= units_demoted(start, company, keep));
    }

    /// Stores a new company.  Fails with `DuplicateKey`, writing nothing, when
    /// its identifier is taken.
    pub fn create_company(&mut self, company: BusinessCompany) -> (r: Result<(), ServiceError>)
        requires
            old(self).wf(),
        ensures
            final(self).wf(),
            history_kept(*old(self), *final(self)),
            locations_kept(*old(self), *final(self)),
            company_exists(old(self).companies@, company.id) ==> r == Err::<(), ServiceError>(ServiceError::DuplicateKey)
                && *final(self) == *old(self),
            !company_exists(old(self).companies@, company.id) ==> r is Ok && only_companies_changed(
                *old(self),
                *final(self),
            ) && final(self).units@ == old(self).units@ && final(self).companies@ == old(self).companies@.push(company),
    {
        proof {
            lemma_history_kept_refl(*self);
        }
        if self.company_index(company.id).is_some() {
            return Err(ServiceError::DuplicateKey);
        }
        let ghost before = *self;
        self.companies.push(company);
        proof {
            let cs = self.companies@;
            let n = before.companies@.len();
            assert forall|a: int, b: int|
                0 <= a < cs.len() && 0 <= b < cs.len() && (#[trigger] cs[a]).id == (#[trigger] cs[b]).id implies a == b by {
                if a < n && b < n {
                    assert(before.companies@[a].id == before.companies@[b].id);
                } else if a < n || b < n {
                    assert(company_exists(before.companies@, cs[n as int].id));
                }
            }
        }
        Ok(())
    }

    /// Creates an active company from its payload under a fresh random
    /// identifier.
    pub fn add_company(&mut self, req: CreateCompanyRequest) -> (r: Result<u128, ServiceError>)
        requires
            old(self).wf(),
        ensures
            final(self).wf(),
            history_kept(*old(self), *final(self)),
            locations_kept(*old(self), *final(self)),
            r is Err ==> r == Err::<u128, ServiceError>(ServiceError::DuplicateKey) && *final(self) == *old(self),
            r is Ok ==> {
                let c = final(self).companies@.last();
                &&& final(self).companies@ == old(self).companies@.push(c)
                &&& c.id == r->Ok_0
                &&& c.owner_user_id == req.owner_user_id
                &&& c.company_name == req.company_name
                &&& c.tax_id == req.tax_id
                &&& c.legal_entity_type == req.legal_entity_type
                &&& c.is_active
                &&& c.metadata@ == "{}"@
                &&& c.created_at == c.updated_at
                &&& only_companies_changed(*old(self), *final(self))
                &&& final(self).units@ == old(self).units@
            },
    {
        let now = now_micros();
        let id = random_id();
        let company = BusinessCompany {
            id,
            owner_user_id: req.owner_user_id,
            company_name: req.company_name,
            tax_id: req.tax_id,
            legal_entity_type: req.legal_entity_type,
            is_active: true,
            metadata: "{}".to_owned(),
            created_at: now,
            updated_at: now,
        };
        match self.create_company(company) {
            Ok(()) => Ok(id),
            Err(e) => Err(e),
        }
    }

    /// Writes the payload's name, tax id and legal entity type over company
    /// `id` at `now`.
    pub fn update_company(&mut self, id: u128, req: CreateCompanyRequest, now: i64) -> (r: Result<(), ServiceError>)
        requires
            old(self).wf(),
        ensures
            final(self).wf(),
            history_kept(*old(self), *final(self)),
            locations_kept(*old(self), *final(self)),
            !company_exists(old(self).companies@, id) ==> r == Err::<(), ServiceError>(
                ServiceError::NotFound(Missing::Company),
            ) && *final(self) == *old(self),
            company_exists(old(self).companies@, id) ==> r is Ok && only_companies_changed(*old(self), *final(self))
                && final(self).units@ == old(self).units@ && exists|i: int|
                0 <= i < old(self).companies@.len() && old(self).companies@[i].id == id && final(self).companies@
                    == old(self).companies@.update(
                    i,
                    BusinessCompany {
                        company_name: req.company_name,
                        tax_id: req.tax_id,
                        legal_entity_type: req.legal_entity_type,
                        updated_at: now,
                        ..old(self).companies@[i]
                    },
                ),
    {
        proof {
            lemma_history_kept_refl(*self);
        }
        let i = match self.company_index(id) {
            Some(i) => i,
            None => return Err(ServiceError::NotFound(Missing::Company)),
        };
        let ghost before = *self;
        let c = &mut self.companies[i];
        c.company_name = req.company_name;
        c.tax_id = req.tax_id;
        c.legal_entity_type = req.legal_entity_type;
        c.updated_at = now;
        proof {
            let cs = self.companies@;
            assert(cs =~= before.companies@.update(
                i as int,
                BusinessCompany {
                    company_name: req.company_name,
                    tax_id: req.tax_id,
                    legal_entity_type: req.legal_entity_type,
                    updated_at: now,
                    ..before.companies@[i as int]
                },
            ));
            assert forall|a: int, b: int|
                0 <= a < cs.len() && 0 <= b < cs.len() && (#[trigger] cs[a]).id == (#[trigger] cs[b]).id implies a == b by {
                assert(before.companies@[a].id == before.companies@[b].id);
            }
        }
        Ok(())
    }

    /// Deletes company `id`.
    pub fn delete_company(&mut self, id: u128) -> (r: Result<(), ServiceError>)
        requires
            old(self).wf(),
        ensures
            final(self).wf(),
            history_kept(*old(self), *final(self)),
            locations_kept(*old(self), *final(self)),
            !company_exists(old(self).companies@, id) ==> r == Err::<(), ServiceError>(
                ServiceError::NotFound(Missing::Company),
            ) && *final(self) == *old(self),
            company_exists(old(self).companies@, id) ==> r is Ok && only_companies_changed(*old(self), *final(self))
                && final(self).units@ == old(self).units@ && exists|i: int|
                0 <= i < old(self).companies@.len() && old(self).companies@[i].id == id && final(self).companies@
                    == old(self).companies@.remove(i),
    {
        proof {
            lemma_history_kept_refl(*self);
        }
        let i = match self.company_index(id) {
            Some(i) => i,
            None => return Err(ServiceError::NotFound(Missing::Company)),
        };
        let ghost before = *self;
        self.companies.remove(i);
        proof {
            let cs = self.companies@;
            let d = i as int;
            assert forall|a: int, b: int|
                0 <= a < cs.len() && 0 <= b < cs.len() && (#[trigger] cs[a]).id == (#[trigger] cs[b]).id implies a == b by {
                let oa = if a < d { a } else { a + 1 };
                let ob = if b < d { b } else { b + 1 };
                assert(before.companies@[oa].id == before.companies@[ob].id);
            }
        }
        Ok(())
    }
}


/// The units after `u` is added: when it is primary, its company's other units
/// lose the flag first.
pub open spec fn with_new_unit(us: Seq<BusinessUnit>, u: BusinessUnit) -> Seq<BusinessUnit> {
    if u.is_primary {
        units_demoted(us, u.company_id, None).push(u)
    } else {
        us.push(u)
    }
}

proof fn lemma_units_demoted(us: Seq<BusinessUnit>, company: u128, keep: Option<usize>)
    requires
        one_primary_unit(us),
    ensures
        units_same_identity(us, units_demoted(us, company, keep)),
        one_primary_unit(units_demoted(us, company, keep)),
        forall|j: int|
            0 <= j < us.len() && (#[trigger] units_demoted(us, company, keep)[j]).is_primary ==> us[j].is_primary
                && (us[j].company_id != company || !not_skipped(keep, j)),
{
}

impl Store {
    /// Adds a unit in one transaction; when it is primary, the other units of
    /// its company lose the flag first.
    pub fn create_business_unit(&mut self, unit: BusinessUnit) -> (r: Result<(), ServiceError>)
        requires
            old(self).wf(),
        ensures
            final(self).wf(),
            history_kept(*old(self), *final(self)),
            locations_kept(*old(self), *final(self)),
            !company_exists(old(self).companies@, unit.company_id) ==> r == Err::<(), ServiceError>(
                ServiceError::NotFound(Missing::Company),
            ) && *final(self) == *old(self),
            company_exists(old(self).companies@, unit.company_id) && unit_exists(old(self).units@, unit.id) ==> r
                == Err::<(), ServiceError>(ServiceError::DuplicateKey) && *final(self) == *old(self),
            company_exists(old(self).companies@, unit.company_id) && !unit_exists(old(self).units@, unit.id) ==> r is Ok
                && only_companies_changed(*old(self), *final(self)) && final(self).companies@ == old(self).companies@
                && final(self).units@ == with_new_unit(old(self).units@, unit),
    {
        proof {
            lemma_history_kept_refl(*self);
        }
        if self.company_index(unit.company_id).is_none() {
            return Err(ServiceError::NotFound(Missing::Company));
        }
        if self.unit_index(unit.id).is_some() {
            return Err(ServiceError::DuplicateKey);
        }
        let ghost before = *self;
        proof {
            lemma_units_demoted(before.units@, unit.company_id, None);
        }
        if unit.is_primary {
            self.demote_units(unit.company_id, None);
        }
        let ghost mid = self.units@;
        self.units.push(unit);
        proof {
            let us = self.units@;
            let n = mid.len();
            assert forall|a: int, b: int|
                0 <= a < us.len() && 0 <= b < us.len() && (#[trigger] us[a]).id == (#[trigger] us[b]).id implies a == b by {
                if a < n && b < n {
                    assert(before.units@[a].id == before.units@[b].id);
                } else if a < n {
                    assert(before.units@[a].id == unit.id);
                } else if b < n {
                    assert(before.units@[b].id == unit.id);
                }
            }
            assert forall|a: int, b: int|
                0 <= a < us.len() && 0 <= b < us.len() && (#[trigger] us[a]).is_primary && (#[trigger] us[b]).is_primary
                    && us[a].company_id == us[b].company_id implies a == b by {
                if a < n && b == n {
                    assert(mid[a].is_primary);
                } else if b < n && a == n {
                    assert(mid[b].is_primary);
                }
            }
        }
        Ok(())
    }

    /// Adds a unit to company `company_id` from its payload, tied to
    /// `registration_id` if given, under a fresh random identifier.
    pub fn add_business_unit(
        &mut self,
        company_id: u128,
        registration_id: Option<u128>,
        req: CreateBusinessUnitRequest,
    ) -> (r: Result<u128, ServiceError>)
        requires
            old(self).wf(),
        ensures
            final(self).wf(),
            history_kept(*old(self), *final(self)),
            locations_kept(*old(self), *final(self)),
            r is Err ==> *final(self) == *old(self),
            !company_exists(old(self).companies@, company_id) ==> r == Err::<u128, ServiceError>(
                ServiceError::NotFound(Missing::Company),
            ),
            company_exists(old(self).companies@, company_id) && r is Err ==> r == Err::<u128, ServiceError>(
                ServiceError::DuplicateKey,
            ),
            r is Ok ==> {
                let u = final(self).units@.last();
                &&& u.id == r->Ok_0
                &&& u.company_id == company_id
                &&& u.registration_id == registration_id
                &&& u.business_id is None
                &&& u.unit_name == req.unit_name
                &&& u.category == req.category
                &&& u.is_primary == req.is_primary
                &&& u.is_active
                &&& u.metadata@ == "{}"@
                &&& u.created_at == u.updated_at
                &&& final(self).units@ == with_new_unit(old(self).units@, u)
                &&& only_companies_changed(*old(self), *final(self))
                &&& final(self).companies@ == old(self).companies@
            },
    {
        let now = now_micros();
        let id = random_id();
        let unit = BusinessUnit {
            id,
            company_id,
            registration_id,
            business_id: None,
            unit_name: req.unit_name,
            category: req.category,
            is_primary: req.is_primary,
            is_active: true,
            metadata: "{}".to_owned(),
            created_at: now,
            updated_at: now,
        };
        let ghost made = unit;
        match self.create_business_unit(unit) {
            Ok(()) => {
                proof {
                    assert(self.units@.last() == made);
                }
                Ok(id)
            },
            Err(e) => Err(e),
        }
    }

    /// Writes the payload's name, category and primary flag over unit `id` at
    /// `now`; when it becomes primary, the other units of its company lose the
    /// flag in the same transaction.
    pub fn update_business_unit(&mut self, id: u128, req: CreateBusinessUnitRequest, now: i64) -> (r: Result<
        (),
        ServiceError,
    >)
        requires
            old(self).wf(),
        ensures
            final(self).wf(),
            history_kept(*old(self), *final(self)),
            locations_kept(*old(self), *final(self)),
            !unit_exists(old(self).units@, id) ==> r == Err::<(), ServiceError>(ServiceError::NotFound(Missing::Unit))
                && *final(self) == *old(self),
            unit_exists(old(self).units@, id) ==> r is Ok && only_companies_changed(*old(self), *final(self))
                && final(self).companies@ == old(self).companies@ && exists|i: int|
                0 <= i < old(self).units@.len() && old(self).units@[i].id == id && {
                    let old_unit = old(self).units@[i];
                    let base = if req.is_primary {
                        units_demoted(old(self).units@, old_unit.company_id, Some(i as usize))
                    } else {
                        old(self).units@
                    };
                    final(self).units@ == base.update(
                        i,
                        BusinessUnit {
                            unit_name: req.unit_name,
                            category: req.category,
                            is_primary: req.is_primary,
                            updated_at: now,
                            ..old_unit
                        },
                    )
                },
    {
        proof {
            lemma_history_kept_refl(*self);
        }
        let i = match self.unit_index(id) {
            Some(i) => i,
            None => return Err(ServiceError::NotFound(Missing::Unit)),
        };
        let ghost before = *self;
        let company = self.units[i].company_id;
        proof {
            lemma_units_demoted(before.units@, company, Some(i));
        }
        if req.is_primary {
            self.demote_units(company, Some(i));
        }
        let ghost base = self.units@;
        let u = &mut self.units[i];
        u.unit_name = req.unit_name;
        u.category = req.category;
        u.is_primary = req.is_primary;
        u.updated_at = now;
        proof {
            let us = self.units@;
            assert(base[i as int] == before.units@[i as int]);
            assert(us =~= base.update(
                i as int,
                BusinessUnit {
                    unit_name: req.unit_name,
                    category: req.category,
                    is_primary: req.is_primary,
                    updated_at: now,
                    ..before.units@[i as int]
                },
            ));
            assert forall|a: int, b: int|
                0 <= a < us.len() && 0 <= b < us.len() && (#[trigger] us[a]).id == (#[trigger] us[b]).id implies a == b by {
                assert(before.units@[a].id == before.units@[b].id);
            }
            assert forall|a: int, b: int|
                0 <= a < us.len() && 0 <= b < us.len() && (#[trigger] us[a]).is_primary && (#[trigger] us[b]).is_primary
                    && us[a].company_id == us[b].company_id implies a == b by {
                if a != i && b != i {
                    assert(base[a].is_primary && base[b].is_primary);
                } else if a == i && b != i {
                    assert(req.is_primary);
                    assert(us[b] == base[b] && base[b].is_primary);
                    assert(base[b].company_id == before.units@[b].company_id);
                } else if b == i && a != i {
                    assert(req.is_primary);
                    assert(us[a] == base[a] && base[a].is_primary);
                    assert(base[a].company_id == before.units@[a].company_id);
                }
            }
        }
        Ok(())
    }

    /// Makes unit `id` the primary unit of its company in one transaction.
    pub fn set_primary_unit(&mut self, id: u128) -> (r: Result<(), ServiceError>)
        requires
            old(self).wf(),
        ensures
            final(self).wf(),
            history_kept(*old(self), *final(self)),
            locations_kept(*old(self), *final(self)),
            !unit_exists(old(self).units@, id) ==> r == Err::<(), ServiceError>(ServiceError::NotFound(Missing::Unit))
                && *final(self) == *old(self),
            unit_exists(old(self).units@, id) ==> r is Ok && only_companies_changed(*old(self), *final(self))
                && final(self).companies@ == old(self).companies@ && exists|i: int|
                0 <= i < old(self).units@.len() && old(self).units@[i].id == id && {
                    let demoted = units_demoted(old(self).units@, old(self).units@[i].company_id, None);
                    final(self).units@ == demoted.update(i, BusinessUnit { is_primary: true, ..demoted[i] })
                },
    {
        proof {
            lemma_history_kept_refl(*self);
        }
        let i = match self.unit_index(id) {
            Some(i) => i,
            None => return Err(ServiceError::NotFound(Missing::Unit)),
        };
        let ghost before = *self;
        let company = self.units[i].company_id;
        proof {
            lemma_units_demoted(before.units@, company, None);
        }
        self.demote_units(company, None);
        let ghost base = self.units@;
        self.units[i].is_primary = true;
        proof {
            let us = self.units@;
            assert(us =~= base.update(i as int, BusinessUnit { is_primary: true, ..base[i as int] }));
            assert forall|a: int, b: int|
                0 <= a < us.len() && 0 <= b < us.len() && (#[trigger] us[a]).id == (#[trigger] us[b]).id implies a == b by {
                assert(before.units@[a].id == before.units@[b].id);
            }
            assert forall|a: int, b: int|
                0 <= a < us.len() && 0 <= b < us.len() && (#[trigger] us[a]).is_primary && (#[trigger] us[b]).is_primary
                    && us[a].company_id == us[b].company_id implies a == b by {
                if a != i && b != i {
                    assert(base[a].is_primary && base[b].is_primary);
                } else if a == i && b != i {
                    assert(base[b].is_primary);
                } else if b == i && a != i {
                    assert(base[a].is_primary);
                }
            }
        }
        Ok(())
    }

    /// Deletes unit `id`.
    pub fn delete_business_unit(&mut self, id: u128) -> (r: Result<(), ServiceError>)
        requires
            old(self).wf(),
        ensures
            final(self).wf(),
            history_kept(*old(self), *final(self)),
            locations_kept(*old(self), *final(self)),
            !unit_exists(old(self).units@, id) ==> r == Err::<(), ServiceError>(ServiceError::NotFound(Missing::Unit))
                && *final(self) == *old(self),
            unit_exists(old(self).units@, id) ==> r is Ok && only_companies_changed(*old(self), *final(self))
                && final(self).companies@ == old(self).companies@ && exists|i: int|
                0 <= i < old(self).units@.len() && old(self).units@[i].id == id && final(self).units@
                    == old(self).units@.remove(i),
    {
        proof {
            lemma_history_kept_refl(*self);
        }
        let i = match self.unit_index(id) {
            Some(i) => i,
            None => return Err(ServiceError::NotFound(Missing::Unit)),
        };
        let ghost before = *self;
        self.units.remove(i);
        proof {
            let us = self.units@;
            let d = i as int;
            assert forall|a: int, b: int|
                0 <= a < us.len() && 0 <= b < us.len() && (#[trigger] us[a]).id == (#[trigger] us[b]).id implies a == b by {
                let oa = if a < d { a } else { a + 1 };
                let ob = if b < d { b } else { b + 1 };
                assert(before.units@[oa].id == before.units@[ob].id);
            }
            assert forall|a: int, b: int|
                0 <= a < us.len() && 0 <= b < us.len() && (#[trigger] us[a]).is_primary && (#[trigger] us[b]).is_primary
                    && us[a].company_id == us[b].company_id implies a == b by {
                let oa = if a < d { a } else { a + 1 };
                let ob = if b < d { b } else { b + 1 };
                assert(before.units@[oa].is_primary && before.units@[ob].is_primary);
            }
        }
        Ok(())
    }
}


/// The registration made for managing the units of user `user`.
pub open spec fn auto_registration(
    r: BusinessRegistration,
    user: u128,
    unit_name: Seq<char>,
    category: Seq<char>,
) -> bool {
    &&& r.user_id == user
    &&& r.business_id is None
    &&& r.name@ == unit_name
    &&& r.category@ == category
    &&& r.address@ == "Auto-generated for unit management"@
    &&& r.description is None
    &&& r.phone is None
    &&& r.website is None
    &&& r.tax_id is None
    &&& r.document_urls@.len() == 0
    &&& !r.is_multi_user_team
    &&& r.status == BusinessVerificationStatus::Approved
    &&& r.owner_email@ == "user-"@ + uuid_text_of(user) + "@auto.local"@
    &&& r.owner_username@ == "user-"@ + uuid_text_of(user)
    &&& r.rejection_reason is None
    &&& r.reviewer_notes is None
    &&& r.reviewer_id is None
    &&& r.reviewer_name is None
    &&& r.submitted_at == r.updated_at
}

/// User `user` has an approved registration.
pub open spec fn has_approved(regs: Seq<BusinessRegistration>, user: u128) -> bool {
    exists|j: int| 0 <= j < regs.len() && approved_of(#[trigger] regs[j], user)
}

/// Registration `id` is the approved registration of user `user` updated most
/// recently.
pub open spec fn latest_approved(regs: Seq<BusinessRegistration>, user: u128, id: u128) -> bool {
    exists|i: int|
        0 <= i < regs.len() && regs[i].id == id && approved_of(regs[i], user) && forall|j: int|
            0 <= j < regs.len() && approved_of(#[trigger] regs[j], user) ==> regs[j].updated_at <= regs[i].updated_at
}

/// Registration `r` is an approved registration of user `user`.
pub open spec fn approved_of(r: BusinessRegistration, user: u128) -> bool {
    r.user_id == user && r.status == BusinessVerificationStatus::Approved
}

/// The approved registration made for user `user` to manage units, created now.
fn auto_registration_record(id: u128, user: u128, unit_name: &str, category: &str) -> (r: BusinessRegistration)
    ensures
        r.id == id,
        auto_registration(r, user, unit_name@, category@),
{
    let now = now_micros();
    let user_text = uuid_text(user);
    let mut owner_username = String::from_str("user-");
    owner_username.append(user_text.as_str());
    let mut owner_email = String::from_str("user-");
    owner_email.append(user_text.as_str());
    owner_email.append("@auto.local");
    BusinessRegistration {
        id,
        user_id: user,
        business_id: None,
        name: String::from_str(unit_name),
        category: String::from_str(category),
        address: String::from_str("Auto-generated for unit management"),
        description: None,
        phone: None,
        website: None,
        tax_id: None,
        document_urls: Vec::new(),
        is_multi_user_team: false,
        status: BusinessVerificationStatus::Approved,
        owner_email,
        owner_username,
        rejection_reason: None,
        reviewer_notes: None,
        reviewer_id: None,
        reviewer_name: None,
        submitted_at: now,
        updated_at: now,
    }
}

impl Store {
    /// The approved registration of user `user` updated most recently, if any.
    pub fn latest_approved_for_user(&self, user: u128) -> (r: Option<usize>)
        ensures
            match r {
                Some(i) => i < self.registrations@.len() && approved_of(self.registrations@[i as int], user)
                    && forall|j: int|
                    0 <= j < self.registrations@.len() && approved_of(#[trigger] self.registrations@[j], user)
                        ==> self.registrations@[j].updated_at <= self.registrations@[i as int].updated_at,
                None => forall|j: int|
                    0 <= j < self.registrations@.len() ==> !approved_of(#[trigger] self.registrations@[j], user),
            },
    {
        let mut best: Option<usize> = None;
        let mut i: usize = 0;
        while i < self.registrations.len()
            invariant
                i <= self.registrations@.len(),
                match best {
                    Some(b) => b < i && approved_of(self.registrations@[b as int], user) && forall|j: int|
                        0 <= j < i && approved_of(#[trigger] self.registrations@[j], user)
                            ==> self.registrations@[j].updated_at <= self.registrations@[b as int].updated_at,
                    None => forall|j: int| 0 <= j < i ==> !approved_of(#[trigger] self.registrations@[j], user),
                },
            decreases self.registrations@.len() - i,
        {
            let reg = &self.registrations[i];
            if reg.user_id == user && matches!(reg.status, BusinessVerificationStatus::Approved) {
                let better = match best {
                    Some(b) => reg.updated_at > self.registrations[b].updated_at,
                    None => true,
                };
                if better {
                    best = Some(i);
                }
            }
            i = i + 1;
        }
        best
    }

    /// The registration under which user `user` manages business units: the
    /// approved registration of the user updated most recently, or else a new
    /// approved registration named after the unit, under a fresh random
    /// identifier.
    ///
    /// This keeps the service's established behaviour on purpose: the
    /// registration it makes exists only to tie units to a user, so it is
    /// created approved, without a review event and without locations.  It is
    /// a new row, so no status of an existing registration changes, and the
    /// review and location invariants of the store hold as for any other row.
    pub fn get_or_create_auto_registration(&mut self, user: u128, unit_name: &str, category: &str) -> (r: Result<
        u128,
        ServiceError,
    >)
        requires
            old(self).wf(),
        ensures
            final(self).wf(),
            history_kept(*old(self), *final(self)),
            locations_kept(*old(self), *final(self)),
            r is Err ==> r == Err::<u128, ServiceError>(ServiceError::DuplicateKey) && *final(self) == *old(self),
            has_approved(old(self).registrations@, user) ==> *final(self) == *old(self) && r is Ok
                && latest_approved(old(self).registrations@, user, r->Ok_0),
            r is Ok && !has_approved(old(self).registrations@, user) ==> {
                &&& final(self).registrations@ == old(self).registrations@.push(final(self).registrations@.last())
                &&& final(self).registrations@.last().id == r->Ok_0
                &&& auto_registration(final(self).registrations@.last(), user, unit_name@, category@)
                &&& final(self).locations@ == old(self).locations@
                &&& final(self).events@ == old(self).events@
                &&& others_untouched(*old(self), *final(self))
            },
    {
        proof {
            lemma_history_kept_refl(*self);
        }
        if let Some(i) = self.latest_approved_for_user(user) {
            proof {
                assert(latest_approved(self.registrations@, user, self.registrations@[i as int].id));
            }
            return Ok(self.registrations[i].id);
        }
        let id = random_id();
        let registration = auto_registration_record(id, user, unit_name, category);
        let ghost made = registration;
        match self.create_registration(registration, Vec::new()) {
            Ok(()) => {
                proof {
                    assert(self.locations@ =~= old(self).locations@.subrange(0, old(self).locations@.len() as int));
                    assert(self.registrations@.last() == made);
                }
            },
            Err(e) => {
                return Err(e);
            },
        }
        Ok(id)
    }
}

impl Store {
    /// Adds a unit to company `company_id` on behalf of user `user`: the
    /// company must exist; the unit is tied to the user's registration for
    /// managing units (see `get_or_create_auto_registration`), or to none when
    /// that registration could not be made.
    pub fn add_unit_for_user(&mut self, company_id: u128, user: u128, req: CreateBusinessUnitRequest) -> (r: Result<
        u128,
        ServiceError,
    >)
        requires
            old(self).wf(),
        ensures
            final(self).wf(),
            history_kept(*old(self), *final(self)),
            locations_kept(*old(self), *final(self)),
            !company_exists(old(self).companies@, company_id) ==> r == Err::<u128, ServiceError>(
                ServiceError::NotFound(Missing::Company),
            ) && *final(self) == *old(self),
            company_exists(old(self).companies@, company_id) && r is Err ==> r == Err::<u128, ServiceError>(
                ServiceError::DuplicateKey,
            ) && final(self).units@ == old(self).units@ && final(self).companies@ == old(self).companies@,
            r is Ok ==> {
                let u = final(self).units@.last();
                &&& u.id == r->Ok_0
                &&& u.company_id == company_id
                &&& u.unit_name == req.unit_name
                &&& u.category == req.category
                &&& u.is_primary == req.is_primary
                &&& u.is_active
                &&& final(self).units@ == with_new_unit(old(self).units@, u)
                &&& final(self).companies@ == old(self).companies@
                &&& (has_approved(old(self).registrations@, user) ==> u.registration_id is Some && latest_approved(
                    old(self).registrations@,
                    user,
                    u.registration_id->0,
                ))
                &&& (u.registration_id is Some ==> exists|i: int|
                    0 <= i < final(self).registrations@.len() && final(self).registrations@[i].id
                        == u.registration_id->0 && approved_of(final(self).registrations@[i], user))
            },
    {
        if self.company_index(company_id).is_none() {
            proof {
                lemma_history_kept_refl(*self);
            }
            return Err(ServiceError::NotFound(Missing::Company));
        }
        let ghost before = *self;
        let registration = match self.get_or_create_auto_registration(user, req.unit_name.as_str(), req.category.as_str()) {
            Ok(id) => Some(id),
            Err(_) => None,
        };
        proof {
            if registration is Some {
                let id = registration->0;
                if has_approved(before.registrations@, user) {
                    let i = choose|i: int|
                        0 <= i < before.registrations@.len() && before.registrations@[i].id == id && approved_of(
                            before.registrations@[i],
                            user,
                        ) && forall|j: int|
                            0 <= j < before.registrations@.len() && approved_of(#[trigger] before.registrations@[j], user)
                                ==> before.registrations@[j].updated_at <= before.registrations@[i].updated_at;
                    assert(self.registrations@[i] == before.registrations@[i]);
                } else {
                    let i = self.registrations@.len() - 1;
                    assert(self.registrations@[i].id == id);
                    assert(approved_of(self.registrations@[i], user));
                }
            }
        }
        let ghost mid = *self;
        let r = self.add_business_unit(company_id, registration, req);
        proof {
            assert(company_exists(mid.companies@, company_id));
            lemma_history_chain(before, mid, *self);
        }
        r
    }
}

/// Two operations in a row keep the history and the locations.
proof fn lemma_history_chain(a: Store, b: Store, c: Store)
    requires
        history_kept(a, b),
        history_kept(b, c),
        locations_kept(a, b),
        locations_kept(b, c),
    ensures
        history_kept(a, c),
        locations_kept(a, c),
{
    crate::laws::lemma_history_kept_trans(a, b, c);
    crate::laws::lemma_locations_kept_trans(a, b, c);
}

} // verus!
