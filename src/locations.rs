//! Registration submission and the locations of a registration.
//!
//! At most one location of a registration is primary: making one primary
//! clears the flag on its siblings within the same transaction.  The last
//! location of a registration cannot be deleted, and deleting the primary one
//! promotes the remaining location created first.

use vstd::prelude::*;
use crate::errors::{ConflictKind, Missing, ServiceError};
use crate::records::{BusinessLocation, BusinessRegistration, PromotionLocation};
use crate::requests::{
    location_from_request, location_updated, registration_from_request, CreateLocationRequest,
    CreateBusinessRegistrationRequest, UpdateLocationRequest,
};
use crate::store::{
    has_location, history_kept, lemma_history_kept_refl, location_id_joined, location_id_used,
    location_of, locations_kept, one_primary_location, registration_exists, Store,
};

verus! {

/// The locations with the primary flag cleared on every location of `reg`
/// other than `keep`.
pub open spec fn demoted(locs: Seq<BusinessLocation>, reg: u128, keep: Option<u128>) -> Seq<BusinessLocation> {
    Seq::new(
        locs.len(),
        |j: int|
            if locs[j].registration_id == reg && keep != Some(locs[j].id) {
                BusinessLocation { is_primary: false, ..locs[j] }
            } else {
                locs[j]
            },
    )
}

/// No review event and no promotion names registration `reg`.
pub open spec fn no_history_or_promotions(s: Store, reg: u128) -> bool {
    &&& forall|k: int| 0 <= k < s.events@.len() ==> (#[trigger] s.events@[k]).registration_id != reg
    &&& forall|p: int| 0 <= p < s.promotions@.len() ==> (#[trigger] s.promotions@[p]).registration_id != reg
}

/// Location `i` of a new batch stays primary: it asks for it and no later one does.
pub open spec fn wins_primary(batch: Seq<BusinessLocation>, i: int) -> bool {
    batch[i].is_primary && forall|j: int| i < j < batch.len() ==> !(#[trigger] batch[j]).is_primary
}

/// `l` is location `g` of a new batch placed under registration `reg`.
pub open spec fn placed(l: BusinessLocation, g: BusinessLocation, reg: u128, primary: bool) -> bool {
    l == BusinessLocation { registration_id: reg, is_primary: primary, ..g }
}

/// The join rows that do not name location `id`.
pub open spec fn rows_without_location(rows: Seq<PromotionLocation>, id: u128) -> Seq<PromotionLocation> {
    rows.filter(not_at_location(id))
}

/// A join row that does not name location `id`.
pub open spec fn not_at_location(id: u128) -> spec_fn(PromotionLocation) -> bool {
    |r: PromotionLocation| r.location_id != id
}

/// Tables other than registrations, events, businesses and locations are as they were.
pub open spec fn others_untouched(old: Store, new: Store) -> bool {
    &&& new.businesses@ == old.businesses@
    &&& new.promotions@ == old.promotions@
    &&& new.companies@ == old.companies@
    &&& new.units@ == old.units@
    &&& new.admins@ == old.admins@
}

/// Identifiers and owners of the locations are as they were, position by position.
pub open spec fn same_owners(old: Seq<BusinessLocation>, new: Seq<BusinessLocation>) -> bool {
    &&& new.len() == old.len()
    &&& forall|j: int| 0 <= j < old.len() ==> (#[trigger] new[j]).id == old[j].id
        && new[j].registration_id == old[j].registration_id
}

proof fn lemma_same_owners_keep(old: Store, new: Store)
    requires
        same_owners(old.locations@, new.locations@),
    ensures
        locations_kept(old, new),
{
    assert forall|reg: u128| #[trigger] has_location(old.locations@, reg) implies has_location(new.locations@, reg) by {
        let j = choose|j: int| 0 <= j < old.locations@.len() && (#[trigger] old.locations@[j]).registration_id == reg;
        assert(new.locations@[j].registration_id == reg);
    }
}

impl Store {
    /// Clears the primary flag on every location of `reg` other than `keep`.
    fn demote_locations(&mut self, reg: u128, keep: Option<u128>)
        ensures
            final(self).locations@ == demoted(old(self).locations@, reg, keep),
            final(self).registrations@ == old(self).registrations@,
            final(self).events@ == old(self).events@,
            final(self).promotion_locations@ == old(self).promotion_locations@,
            others_untouched(*old(self), *final(self)),
    {
        let ghost start = self.locations@;
        let mut j: usize = 0;
        while j < self.locations.len()
            invariant
                j <= self.locations@.len(),
                self.locations@.len() == start.len(),
                forall|k: int| 0 <= k < j ==> #[trigger] self.locations@[k] == demoted(start, reg, keep)[k],
                forall|k: int| j <= k < start.len() ==> #[trigger] self.locations@[k] == start[k],
                self.registrations@ == old(self).registrations@,
                self.events@ == old(self).events@,
                self.promotion_locations@ == old(self).promotion_locations@,
                others_untouched(*old(self), *self),
                start == old(self).locations@,
            decreases self.locations@.len() - j,
        {
            let mine = self.locations[j].registration_id == reg;
            let kept = match keep {
                Some(k) => k == self.locations[j].id,
                None => false,
            };
            if mine && !kept {
                self.locations[j].is_primary = false;
            }
            j = j + 1;
        }
        assert(self.locations@ =~= demoted(start, reg, keep));
    }

    /// Stores a new registration with its first locations in one transaction.
    /// The locations are placed under the registration; of those that ask to be
    /// primary only the last one stays primary.
    ///
    /// Fails with `DuplicateKey`, writing nothing, when the registration's
    /// identifier or a location's identifier is already in use or repeats in
    /// the batch.
    pub fn create_registration(&mut self, registration: BusinessRegistration, batch: Vec<BusinessLocation>) -> (r: Result<
        (),
        ServiceError,
    >)
        requires
            old(self).wf(),
        ensures
            final(self).wf(),
            history_kept(*old(self), *final(self)),
            locations_kept(*old(self), *final(self)),
            r is Err ==> *final(self) == *old(self),
            r is Err <==> (registration_exists(old(self).registrations@, registration.id) || exists|i: int|
                0 <= i < batch@.len() && (location_id_used(old(self).locations@, (#[trigger] batch@[i]).id)
                    || location_id_joined(old(self).promotion_locations@, batch@[i].id) || exists|j: int|
                    0 <= j < i && (#[trigger] batch@[j]).id == batch@[i].id)),
            r is Err ==> r == Err::<(), ServiceError>(ServiceError::DuplicateKey),
            r is Ok ==> {
                &&& final(self).registrations@ == old(self).registrations@.push(registration)
                &&& no_history_or_promotions(*final(self), registration.id)
                &&& final(self).events@ == old(self).events@
                &&& final(self).promotion_locations@ == old(self).promotion_locations@
                &&& others_untouched(*old(self), *final(self))
                &&& final(self).locations@.len() == old(self).locations@.len() + batch@.len()
                &&& final(self).locations@.subrange(0, old(self).locations@.len() as int) == old(self).locations@
                &&& forall|i: int| 0 <= i < batch@.len() ==> placed(
                    #[trigger] final(self).locations@[old(self).locations@.len() + i],
                    batch@[i],
                    registration.id,
                    wins_primary(batch@, i),
                )
            },
    {
        proof {
            lemma_history_kept_refl(*self);
        }
        if self.registration_index(registration.id).is_some() {
            return Err(ServiceError::DuplicateKey);
        }
        let n = batch.len();
        let mut i: usize = 0;
        while i < n
            invariant
                n == batch@.len(),
                i <= n,
                *self == *old(self),
                old(self).wf(),
                history_kept(*old(self), *self),
                locations_kept(*old(self), *self),
                forall|a: int|
                    0 <= a < i ==> !location_id_used(self.locations@, (#[trigger] batch@[a]).id)
                        && !location_id_joined(self.promotion_locations@, batch@[a].id) && forall|b: int|
                        0 <= b < a ==> (#[trigger] batch@[b]).id != batch@[a].id,
            decreases n - i,
        {
            let id = batch[i].id;
            if self.location_id_taken(id) || self.location_id_in_joins(id) {
                return Err(ServiceError::DuplicateKey);
            }
            let mut b: usize = 0;
            while b < i
                invariant
                    n == batch@.len(),
                    b <= i < n,
                    *self == *old(self),
                    old(self).wf(),
                    history_kept(*old(self), *self),
                    locations_kept(*old(self), *self),
                    id == batch@[i as int].id,
                    forall|c: int| 0 <= c < b ==> (#[trigger] batch@[c]).id != id,
                decreases i - b,
            {
                if batch[b].id == id {
                    return Err(ServiceError::DuplicateKey);
                }
                b = b + 1;
            }
            i = i + 1;
        }
        let mut last_primary: Option<usize> = None;
        let mut k: usize = 0;
        while k < n
            invariant
                n == batch@.len(),
                k <= n,
                *self == *old(self),
                old(self).wf(),
                match last_primary {
                    Some(p) => p < k && batch@[p as int].is_primary && forall|q: int|
                        p < q < k ==> !(#[trigger] batch@[q]).is_primary,
                    None => forall|q: int| 0 <= q < k ==> !(#[trigger] batch@[q]).is_primary,
                },
            decreases n - k,
        {
            if batch[k].is_primary {
                last_primary = Some(k);
            }
            k = k + 1;
        }
        let ghost before = *self;
        let ghost given = batch@;
        let reg_id = registration.id;
        self.registrations.push(registration);
        let mut pending = batch;
        let mut m: usize = 0;
        while pending.len() > 0
            invariant
                m + pending@.len() == n,
                n == given.len(),
                pending@ == given.subrange(m as int, n as int),
                self.locations@.len() == before.locations@.len() + m,
                self.locations@.subrange(0, before.locations@.len() as int) == before.locations@,
                forall|a: int| 0 <= a < m ==> placed(
                    #[trigger] self.locations@[before.locations@.len() + a],
                    given[a],
                    reg_id,
                    wins_primary(given, a),
                ),
                match last_primary {
                    Some(p) => p < n && given[p as int].is_primary && forall|q: int|
                        p < q < n ==> !(#[trigger] given[q]).is_primary,
                    None => forall|q: int| 0 <= q < n ==> !(#[trigger] given[q]).is_primary,
                },
                self.registrations@ == before.registrations@.push(registration),
                self.events@ == before.events@,
                self.promotion_locations@ == before.promotion_locations@,
                others_untouched(before, *self),
            decreases pending@.len(),
        {
            let mut loc = pending.remove(0);
            proof {
                assert(loc == given[m as int]);
            }
            loc.registration_id = reg_id;
            loc.is_primary = match last_primary {
                Some(p) => p == m,
                None => false,
            };
            proof {
                assert(loc.is_primary == wins_primary(given, m as int));
            }
            self.locations.push(loc);
            proof {
                assert(self.locations@.subrange(0, before.locations@.len() as int) =~= before.locations@);
            }
            m = m + 1;
        }
        proof {
            let old_len = before.locations@.len();
            let locs = self.locations@;
            let regs = self.registrations@;
            assert forall|a: int| 0 <= a < n implies (#[trigger] locs[old_len + a]).id == given[a].id
                && locs[old_len + a].registration_id == reg_id && locs[old_len + a].is_primary == wins_primary(given, a) by {
                assert(placed(locs[old_len + a], given[a], reg_id, wins_primary(given, a)));
            }
            assert forall|a: int| 0 <= a < old_len implies #[trigger] locs[a] == before.locations@[a] by {
                assert(locs.subrange(0, old_len as int)[a] == locs[a]);
            }
            assert forall|j: int| 0 <= j < locs.len() implies registration_exists(regs, (#[trigger] locs[j]).registration_id) by {
                if j < old_len {
                    let w = choose|i: int|
                        0 <= i < before.registrations@.len() && (#[trigger] before.registrations@[i]).id
                            == before.locations@[j].registration_id;
                    assert(regs[w] == before.registrations@[w]);
                } else {
                    assert(locs[old_len + (j - old_len)].registration_id == reg_id);
                    assert(regs[regs.len() - 1].id == reg_id);
                }
            }
            assert forall|k: int| 0 <= k < self.events@.len() implies registration_exists(
                regs,
                (#[trigger] self.events@[k]).registration_id,
            ) by {
                let w = choose|i: int|
                    0 <= i < before.registrations@.len() && (#[trigger] before.registrations@[i]).id
                        == self.events@[k].registration_id;
                assert(regs[w] == before.registrations@[w]);
            }
            assert forall|p: int| 0 <= p < self.promotions@.len() implies registration_exists(
                regs,
                (#[trigger] self.promotions@[p]).registration_id,
            ) by {
                let w = choose|i: int|
                    0 <= i < before.registrations@.len() && (#[trigger] before.registrations@[i]).id
                        == self.promotions@[p].registration_id;
                assert(regs[w] == before.registrations@[w]);
            }
            // Earlier locations belong to other registrations than the new one.
            assert forall|a: int| 0 <= a < old_len implies (#[trigger] locs[a]).registration_id != reg_id by {
                assert(registration_exists(before.registrations@, before.locations@[a].registration_id));
            }
            assert forall|a: int, b: int|
                0 <= a < locs.len() && 0 <= b < locs.len() && (#[trigger] locs[a]).id == (#[trigger] locs[b]).id
                    implies a == b by {
                if a >= old_len && b >= old_len {
                    let x = a - old_len;
                    let y = b - old_len;
                    assert(locs[old_len + x].id == given[x].id);
                    assert(locs[old_len + y].id == given[y].id);
                    if x < y {
                        assert(given[x].id == given[y].id);
                    } else if y < x {
                        assert(given[x].id == given[y].id);
                    }
                } else if a >= old_len {
                    assert(locs[old_len + (a - old_len)].id == given[a - old_len].id);
                    assert(location_id_used(before.locations@, given[a - old_len].id));
                } else if b >= old_len {
                    assert(locs[old_len + (b - old_len)].id == given[b - old_len].id);
                    assert(location_id_used(before.locations@, given[b - old_len].id));
                }
            }
            assert forall|a: int, b: int|
                0 <= a < locs.len() && 0 <= b < locs.len() && (#[trigger] locs[a]).is_primary
                    && (#[trigger] locs[b]).is_primary && locs[a].registration_id == locs[b].registration_id
                    implies a == b by {
                if a >= old_len && b >= old_len {
                    let x = a - old_len;
                    let y = b - old_len;
                    assert(locs[old_len + x].is_primary == wins_primary(given, x));
                    assert(locs[old_len + y].is_primary == wins_primary(given, y));
                    if x < y {
                        assert(!given[y].is_primary);
                    } else if y < x {
                        assert(!given[x].is_primary);
                    }
                } else if a >= old_len {
                    assert(locs[old_len + (a - old_len)].registration_id == reg_id);
                    assert(locs[b].registration_id != reg_id);
                } else if b >= old_len {
                    assert(locs[old_len + (b - old_len)].registration_id == reg_id);
                    assert(locs[a].registration_id != reg_id);
                } else {
                    assert(locs[a] == before.locations@[a] && locs[b] == before.locations@[b]);
                }
            }
            assert forall|q: int, p: int, j: int|
                0 <= q < self.promotion_locations@.len() && 0 <= p < self.promotions@.len() && 0 <= j
                    < locs.len() && (#[trigger] self.promotion_locations@[q]).promotion_id
                    == (#[trigger] self.promotions@[p]).id && self.promotion_locations@[q].location_id
                    == (#[trigger] locs[j]).id implies locs[j].registration_id
                    == self.promotions@[p].registration_id by {
                if j >= old_len {
                    assert(locs[old_len + (j - old_len)].id == given[j - old_len].id);
                    assert(location_id_joined(before.promotion_locations@, given[j - old_len].id));
                }
            }
            let n0 = before.events@.len();
            assert(self.events@.subrange(0, n0 as int) =~= before.events@);
            assert forall|reg: u128| #[trigger] has_location(before.locations@, reg) implies has_location(locs, reg) by {
                let j = choose|j: int|
                    0 <= j < before.locations@.len() && (#[trigger] before.locations@[j]).registration_id == reg;
                assert(locs[j] == before.locations@[j]);
            }
        }
        Ok(())
    }

    /// Submits a registration: its payload is checked, then the registration
    /// is stored as pending with its locations under fresh random identifiers.
    /// The first location is primary unless a later one asks to be.
    pub fn submit_registration(&mut self, req: CreateBusinessRegistrationRequest) -> (r: Result<u128, ServiceError>)
        requires
            old(self).wf(),
        ensures
            final(self).wf(),
            history_kept(*old(self), *final(self)),
            locations_kept(*old(self), *final(self)),
            r is Err ==> *final(self) == *old(self),
            req.problem() is Some ==> r == Err::<u128, ServiceError>(ServiceError::Validation(req.problem()->0)),
            req.problem() is None && r is Err ==> r == Err::<u128, ServiceError>(ServiceError::DuplicateKey),
            r is Ok ==> {
                let id = r->Ok_0;
                let n = old(self).locations@.len();
                &&& final(self).registrations@.len() == old(self).registrations@.len() + 1
                &&& final(self).registrations@.drop_last() == old(self).registrations@
                &&& final(self).registrations@.last().id == id
                &&& registration_from_request(final(self).registrations@.last(), req)
                &&& no_history_or_promotions(*final(self), id)
                &&& final(self).events@ == old(self).events@
                &&& final(self).promotion_locations@ == old(self).promotion_locations@
                &&& others_untouched(*old(self), *final(self))
                &&& final(self).locations@.len() == n + req.locations@.len()
                &&& final(self).locations@.subrange(0, n as int) == old(self).locations@
                &&& forall|i: int| 0 <= i < req.locations@.len() ==> location_from_request(
                    #[trigger] final(self).locations@[n + i],
                    req.locations@[i],
                    id,
                    first_primary_wins(req.locations@, i),
                )
            },
    {
        if let Err(e) = req.validate() {
            proof {
                lemma_history_kept_refl(*self);
            }
            return Err(ServiceError::Validation(e));
        }
        let ghost asked = req.locations@;
        let (registration, batch) = req.into_new_registration();
        let id = registration.id;
        let ghost reg = registration;
        let ghost given = batch@;
        let ghost n = self.locations@.len();
        let r = self.create_registration(registration, batch);
        match r {
            Ok(()) => {
                proof {
                    assert(self.registrations@.drop_last() =~= old(self).registrations@);
                    assert forall|i: int| 0 <= i < asked.len() implies location_from_request(
                        #[trigger] self.locations@[n + i],
                        asked[i],
                        id,
                        first_primary_wins(asked, i),
                    ) by {
                        assert(placed(self.locations@[n + i], given[i], id, wins_primary(given, i)));
                        assert(location_from_request(given[i], asked[i], id, asked[i].is_primary || i == 0));
                        assert forall|j: int| i < j < given.len() implies given[j].is_primary == asked[j].is_primary by {
                            assert(location_from_request(given[j], asked[j], id, asked[j].is_primary || j == 0));
                        }
                    }
                }
                Ok(id)
            },
            Err(e) => Err(e),
        }
    }

    /// The position of location `id` of registration `reg`.
    pub fn location_index(&self, reg: u128, id: u128) -> (r: Option<usize>)
        ensures
            match r {
                Some(i) => i < self.locations@.len() && self.locations@[i as int].id == id
                    && self.locations@[i as int].registration_id == reg,
                None => !location_of(self.locations@, id, reg),
            },
    {
        let mut j: usize = 0;
        while j < self.locations.len()
            invariant
                j <= self.locations@.len(),
                forall|k: int| 0 <= k < j ==> !((#[trigger] self.locations@[k]).id == id
                    && self.locations@[k].registration_id == reg),
            decreases self.locations@.len() - j,
        {
            if self.locations[j].id == id && self.locations[j].registration_id == reg {
                return Some(j);
            }
            j = j + 1;
        }
        None
    }

    /// The position of the first location of `reg` other than the one at
    /// position `skip`.
    pub fn first_location_of(&self, reg: u128, skip: Option<usize>) -> (r: Option<usize>)
        ensures
            match r {
                Some(f) => f < self.locations@.len() && self.locations@[f as int].registration_id == reg
                    && skip != Some(f) && forall|g: int|
                    0 <= g < f && not_skipped(skip, g) ==> (#[trigger] self.locations@[g]).registration_id != reg,
                None => forall|g: int|
                    0 <= g < self.locations@.len() && not_skipped(skip, g)
                        ==> (#[trigger] self.locations@[g]).registration_id != reg,
            },
    {
        let mut j: usize = 0;
        while j < self.locations.len()
            invariant
                j <= self.locations@.len(),
                forall|g: int|
                    0 <= g < j && not_skipped(skip, g) ==> (#[trigger] self.locations@[g]).registration_id != reg,
            decreases self.locations@.len() - j,
        {
            let skipped = match skip {
                Some(s) => s == j,
                None => false,
            };
            if !skipped && self.locations[j].registration_id == reg {
                return Some(j);
            }
            j = j + 1;
        }
        None
    }
}

/// Position `g` is not the one to skip.
pub open spec fn not_skipped(skip: Option<usize>, g: int) -> bool {
    match skip {
        Some(s) => g != s as int,
        None => true,
    }
}

/// A location of a new registration stays primary: it is the first one or asks
/// to be, and no later one asks to be.
pub open spec fn first_primary_wins(reqs: Seq<CreateLocationRequest>, i: int) -> bool {
    (reqs[i].is_primary || i == 0) && forall|j: int| i < j < reqs.len() ==> !(#[trigger] reqs[j]).is_primary
}


/// The locations after `loc` is added: when it is primary, the registration's
/// other locations lose the flag first.
pub open spec fn with_new_location(locs: Seq<BusinessLocation>, loc: BusinessLocation) -> Seq<BusinessLocation> {
    if loc.is_primary {
        demoted(locs, loc.registration_id, None).push(loc)
    } else {
        locs.push(loc)
    }
}

/// Where `create_location_for_registration` stops, if it does.
pub open spec fn create_location_failure(s: Store, loc: BusinessLocation) -> Option<ServiceError> {
    if !registration_exists(s.registrations@, loc.registration_id) {
        Some(ServiceError::NotFound(Missing::Registration))
    } else if location_id_used(s.locations@, loc.id) || location_id_joined(s.promotion_locations@, loc.id) {
        Some(ServiceError::DuplicateKey)
    } else {
        None
    }
}

/// `new` differs from `old` only in its locations.
pub open spec fn only_locations_changed(old: Store, new: Store) -> bool {
    &&& new.registrations@ == old.registrations@
    &&& new.events@ == old.events@
    &&& new.promotion_locations@ == old.promotion_locations@
    &&& others_untouched(old, new)
}

proof fn lemma_demoted_facts(locs: Seq<BusinessLocation>, reg: u128, keep: Option<u128>)
    requires
        one_primary_location(locs),
    ensures
        same_owners(locs, demoted(locs, reg, keep)),
        one_primary_location(demoted(locs, reg, keep)),
        forall|j: int|
            0 <= j < locs.len() && (#[trigger] demoted(locs, reg, keep)[j]).is_primary ==> locs[j].is_primary
                && (locs[j].registration_id != reg || keep == Some(locs[j].id)),
{
}

impl Store {
    /// Adds one location in one transaction; when it is primary, its sibling
    /// locations lose the flag first.
    pub fn create_location_for_registration(&mut self, loc: BusinessLocation) -> (r: Result<(), ServiceError>)
        requires
            old(self).wf(),
        ensures
            final(self).wf(),
            history_kept(*old(self), *final(self)),
            locations_kept(*old(self), *final(self)),
            match create_location_failure(*old(self), loc) {
                Some(e) => r == Err::<(), ServiceError>(e) && *final(self) == *old(self),
                None => r is Ok && only_locations_changed(*old(self), *final(self))
                    && final(self).locations@ == with_new_location(old(self).locations@, loc),
            },
    {
        proof {
            lemma_history_kept_refl(*self);
        }
        if self.registration_index(loc.registration_id).is_none() {
            return Err(ServiceError::NotFound(Missing::Registration));
        }
        if self.location_id_taken(loc.id) || self.location_id_in_joins(loc.id) {
            return Err(ServiceError::DuplicateKey);
        }
        let ghost before = *self;
        proof {
            lemma_demoted_facts(before.locations@, loc.registration_id, None);
        }
        if loc.is_primary {
            self.demote_locations(loc.registration_id, None);
        }
        let ghost mid = self.locations@;
        self.locations.push(loc);
        proof {
            let locs = self.locations@;
            let n = mid.len();
            assert(same_owners(before.locations@, mid));
            assert forall|j: int| 0 <= j < locs.len() implies registration_exists(
                self.registrations@,
                (#[trigger] locs[j]).registration_id,
            ) by {
                if j < n {
                    assert(locs[j].registration_id == before.locations@[j].registration_id);
                }
            }
            assert forall|a: int, b: int|
                0 <= a < locs.len() && 0 <= b < locs.len() && (#[trigger] locs[a]).id == (#[trigger] locs[b]).id
                    implies a == b by {
                if a < n && b == n {
                    assert(before.locations@[a].id == loc.id);
                } else if b < n && a == n {
                    assert(before.locations@[b].id == loc.id);
                } else if a < n && b < n {
                    assert(before.locations@[a].id == before.locations@[b].id);
                }
            }
            assert forall|a: int, b: int|
                0 <= a < locs.len() && 0 <= b < locs.len() && (#[trigger] locs[a]).is_primary
                    && (#[trigger] locs[b]).is_primary && locs[a].registration_id == locs[b].registration_id
                    implies a == b by {
                if a < n && b == n {
                    assert(mid[a].is_primary);
                } else if b < n && a == n {
                    assert(mid[b].is_primary);
                }
            }
            assert forall|q: int, p: int, j: int|
                0 <= q < self.promotion_locations@.len() && 0 <= p < self.promotions@.len() && 0 <= j
                    < locs.len() && (#[trigger] self.promotion_locations@[q]).promotion_id
                    == (#[trigger] self.promotions@[p]).id && self.promotion_locations@[q].location_id
                    == (#[trigger] locs[j]).id implies locs[j].registration_id
                    == self.promotions@[p].registration_id by {
                if j == n {
                    assert(location_id_joined(before.promotion_locations@, loc.id));
                } else {
                    assert(locs[j].id == before.locations@[j].id);
                }
            }
            assert forall|reg: u128| #[trigger] has_location(before.locations@, reg) implies has_location(locs, reg) by {
                let j = choose|j: int|
                    0 <= j < before.locations@.len() && (#[trigger] before.locations@[j]).registration_id == reg;
                assert(locs[j].registration_id == reg);
            }
        }
        Ok(())
    }

    /// Adds a location to registration `registration_id` from its payload.
    /// The location is primary when it asks to be or when the registration has
    /// no location yet; it gets a fresh random identifier.
    pub fn add_location(&mut self, registration_id: u128, req: CreateLocationRequest) -> (r: Result<
        u128,
        ServiceError,
    >)
        requires
            old(self).wf(),
        ensures
            final(self).wf(),
            history_kept(*old(self), *final(self)),
            locations_kept(*old(self), *final(self)),
            r is Err ==> *final(self) == *old(self),
            !registration_exists(old(self).registrations@, registration_id) ==> r == Err::<u128, ServiceError>(
                ServiceError::NotFound(Missing::Registration),
            ),
            registration_exists(old(self).registrations@, registration_id) && req.problem() is Some ==> r
                == Err::<u128, ServiceError>(ServiceError::Validation(req.problem()->0)),
            registration_exists(old(self).registrations@, registration_id) && req.problem() is None && r is Err
                ==> r == Err::<u128, ServiceError>(ServiceError::DuplicateKey),
            r is Ok ==> only_locations_changed(*old(self), *final(self)) && final(self).locations@.last().id
                == r->Ok_0 && final(self).locations@ == with_new_location(
                old(self).locations@,
                final(self).locations@.last(),
            ) && location_from_request(
                final(self).locations@.last(),
                req,
                registration_id,
                req.is_primary || !has_location(old(self).locations@, registration_id),
            ),
    {
        proof {
            lemma_history_kept_refl(*self);
        }
        if self.registration_index(registration_id).is_none() {
            return Err(ServiceError::NotFound(Missing::Registration));
        }
        if let Err(e) = req.validate() {
            return Err(ServiceError::Validation(e));
        }
        let first = self.first_location_of(registration_id, None).is_none();
        let loc = req.into_new_location(registration_id, first);
        let id = loc.id;
        let ghost made = loc;
        let r = self.create_location_for_registration(loc);
        match r {
            Ok(()) => {
                proof {
                    assert(self.locations@.last() == made);
                }
                Ok(id)
            },
            Err(e) => Err(e),
        }
    }
}


/// Where `update_location` stops, if it does, in the order it checks.
pub open spec fn update_location_failure(
    s: Store,
    registration_id: u128,
    location_id: u128,
    req: UpdateLocationRequest,
) -> Option<ServiceError> {
    if !registration_exists(s.registrations@, registration_id) {
        Some(ServiceError::NotFound(Missing::Registration))
    } else if req.problem() is Some {
        Some(ServiceError::Validation(req.problem()->0))
    } else if !location_of(s.locations@, location_id, registration_id) {
        Some(ServiceError::NotFound(Missing::Location))
    } else {
        None
    }
}

/// Where `delete_location` stops, if it does, in the order it checks: the
/// registration and the location must exist, and the registration must keep
/// another location.
pub open spec fn delete_location_failure(s: Store, registration_id: u128, location_id: u128) -> Option<ServiceError> {
    if !registration_exists(s.registrations@, registration_id) {
        Some(ServiceError::NotFound(Missing::Registration))
    } else if !location_of(s.locations@, location_id, registration_id) {
        Some(ServiceError::NotFound(Missing::Location))
    } else if !(exists|j: int|
        0 <= j < s.locations@.len() && (#[trigger] s.locations@[j]).registration_id == registration_id
            && s.locations@[j].id != location_id) {
        Some(ServiceError::Conflict(ConflictKind::LastLocation))
    } else {
        None
    }
}

impl Store {
    /// Rewrites location `location_id` of registration `registration_id` from
    /// its payload at `now`; when it becomes primary, its siblings lose the flag
    /// in the same transaction.
    pub fn update_location(
        &mut self,
        registration_id: u128,
        location_id: u128,
        req: UpdateLocationRequest,
        now: i64,
    ) -> (r: Result<(), ServiceError>)
        requires
            old(self).wf(),
        ensures
            final(self).wf(),
            history_kept(*old(self), *final(self)),
            locations_kept(*old(self), *final(self)),
            match update_location_failure(*old(self), registration_id, location_id, req) {
                Some(e) => r == Err::<(), ServiceError>(e) && *final(self) == *old(self),
                None => r is Ok && only_locations_changed(*old(self), *final(self)) && exists|i: int|
                    0 <= i < old(self).locations@.len() && old(self).locations@[i].id == location_id && {
                        let base = if req.is_primary {
                            demoted(old(self).locations@, registration_id, Some(location_id))
                        } else {
                            old(self).locations@
                        };
                        &&& final(self).locations@ == base.update(i, final(self).locations@[i])
                        &&& location_updated(old(self).locations@[i], final(self).locations@[i], req, now)
                    },
            },
    {
        proof {
            lemma_history_kept_refl(*self);
        }
        if self.registration_index(registration_id).is_none() {
            return Err(ServiceError::NotFound(Missing::Registration));
        }
        if let Err(e) = req.validate() {
            return Err(ServiceError::Validation(e));
        }
        let idx = match self.location_index(registration_id, location_id) {
            Some(i) => i,
            None => return Err(ServiceError::NotFound(Missing::Location)),
        };
        let ghost before = *self;
        proof {
            lemma_demoted_facts(before.locations@, registration_id, Some(location_id));
        }
        if req.is_primary {
            self.demote_locations(registration_id, Some(location_id));
        }
        let ghost base = self.locations@;
        req.apply_to_existing(&mut self.locations[idx], now);
        proof {
            let locs = self.locations@;
            assert(base[idx as int] == before.locations@[idx as int]);
            assert(locs =~= base.update(idx as int, locs[idx as int]));
            assert(same_owners(before.locations@, base));
            assert(same_owners(before.locations@, locs));
            lemma_same_owners_keep(before, *self);
            assert forall|j: int| 0 <= j < locs.len() implies registration_exists(
                self.registrations@,
                (#[trigger] locs[j]).registration_id,
            ) by {
                assert(locs[j].registration_id == before.locations@[j].registration_id);
            }
            assert forall|a: int, b: int|
                0 <= a < locs.len() && 0 <= b < locs.len() && (#[trigger] locs[a]).id == (#[trigger] locs[b]).id
                    implies a == b by {
                assert(before.locations@[a].id == before.locations@[b].id);
            }
            assert forall|a: int, b: int|
                0 <= a < locs.len() && 0 <= b < locs.len() && (#[trigger] locs[a]).is_primary
                    && (#[trigger] locs[b]).is_primary && locs[a].registration_id == locs[b].registration_id
                    implies a == b by {
                if a != idx && b != idx {
                    assert(base[a].is_primary && base[b].is_primary);
                } else if a == idx && b != idx {
                    assert(base[b].is_primary);
                    assert(before.locations@[b].id != location_id);
                } else if b == idx && a != idx {
                    assert(base[a].is_primary);
                    assert(before.locations@[a].id != location_id);
                }
            }
            assert forall|q: int, p: int, j: int|
                0 <= q < self.promotion_locations@.len() && 0 <= p < self.promotions@.len() && 0 <= j
                    < locs.len() && (#[trigger] self.promotion_locations@[q]).promotion_id
                    == (#[trigger] self.promotions@[p]).id && self.promotion_locations@[q].location_id
                    == (#[trigger] locs[j]).id implies locs[j].registration_id
                    == self.promotions@[p].registration_id by {
                assert(locs[j].id == before.locations@[j].id);
            }
        }
        Ok(())
    }
}


/// The join rows without those naming location `id`; each kept row is one of
/// the given rows.
pub(crate) fn drop_location_rows(rows: &Vec<PromotionLocation>, id: u128) -> (r: Vec<PromotionLocation>)
    ensures
        r@ == rows_without_location(rows@, id),
        forall|q: int| 0 <= q < r@.len() ==> rows@.contains(#[trigger] r@[q]),
{
    let mut out: Vec<PromotionLocation> = Vec::new();
    let mut i: usize = 0;
    while i < rows.len()
        invariant
            i <= rows@.len(),
            out@ == rows_without_location(rows@.subrange(0, i as int), id),
            forall|q: int| 0 <= q < out@.len() ==> rows@.contains(#[trigger] out@[q]),
        decreases rows@.len() - i,
    {
        let ghost s1 = rows@.subrange(0, i + 1);
        proof {
            assert(s1.drop_last() =~= rows@.subrange(0, i as int));
            assert(s1.last() == rows@[i as int]);
            reveal(Seq::filter);
            assert(s1.filter(not_at_location(id)) == (if not_at_location(id)(s1.last()) {
                s1.drop_last().filter(not_at_location(id)).push(s1.last())
            } else {
                s1.drop_last().filter(not_at_location(id))
            }));
        }
        let row = rows[i];
        if row.location_id != id {
            out.push(row);
            proof {
                assert(out@[out@.len() - 1] == rows@[i as int]);
                assert(rows@.contains(rows@[i as int]));
            }
        }
        i = i + 1;
    }
    proof {
        assert(rows@.subrange(0, rows@.len() as int) =~= rows@);
    }
    out
}

/// Position `f` holds the location of `reg` created first: no location of
/// `reg` has an earlier `created_at`, and none before `f` has the same one.
pub open spec fn earliest_of(locs: Seq<BusinessLocation>, reg: u128, f: int) -> bool {
    &&& 0 <= f < locs.len()
    &&& locs[f].registration_id == reg
    &&& forall|g: int|
        0 <= g < locs.len() && (#[trigger] locs[g]).registration_id == reg ==> locs[f].created_at <= locs[g].created_at
    &&& forall|g: int|
        0 <= g < f && (#[trigger] locs[g]).registration_id == reg ==> locs[f].created_at < locs[g].created_at
}

/// The locations after the one at position `d` is deleted: when it was primary,
/// the remaining location of its registration created first becomes primary.
pub open spec fn after_delete(locs: Seq<BusinessLocation>, d: int, result: Seq<BusinessLocation>) -> bool {
    let rest = locs.remove(d);
    let reg = locs[d].registration_id;
    if locs[d].is_primary {
        exists|f: int|
            earliest_of(rest, reg, f) && result == rest.update(f, BusinessLocation { is_primary: true, ..rest[f] })
    } else {
        result == rest
    }
}

impl Store {
    /// The position of the location of `reg` created first, if it has any.
    pub fn earliest_location_of(&self, reg: u128) -> (r: Option<usize>)
        ensures
            match r {
                Some(f) => earliest_of(self.locations@, reg, f as int),
                None => !has_location(self.locations@, reg),
            },
    {
        let mut best: Option<usize> = None;
        let mut j: usize = 0;
        while j < self.locations.len()
            invariant
                j <= self.locations@.len(),
                match best {
                    Some(f) => earliest_of(self.locations@.subrange(0, j as int), reg, f as int),
                    None => forall|g: int| 0 <= g < j ==> (#[trigger] self.locations@[g]).registration_id != reg,
                },
            decreases self.locations@.len() - j,
        {
            let loc = &self.locations[j];
            if loc.registration_id == reg {
                let better = match best {
                    Some(f) => loc.created_at < self.locations[f].created_at,
                    None => true,
                };
                if better {
                    best = Some(j);
                }
            }
            proof {
                let p = self.locations@.subrange(0, j as int);
                let q = self.locations@.subrange(0, j + 1);
                assert forall|g: int| 0 <= g < j implies #[trigger] q[g] == p[g] by {}
                assert(q[j as int] == self.locations@[j as int]);
                match best {
                    Some(f) => {
                        assert(earliest_of(q, reg, f as int));
                    },
                    None => {},
                }
            }
            j = j + 1;
        }
        proof {
            assert(self.locations@.subrange(0, self.locations@.len() as int) =~= self.locations@);
        }
        best
    }

    /// Deletes location `location_id` of registration `registration_id`, with
    /// its promotion bindings, in one transaction.  When it was primary, the
    /// remaining location of the registration created first becomes primary.  The last
    /// location of a registration is never deleted.
    pub fn delete_location(&mut self, registration_id: u128, location_id: u128) -> (r: Result<(), ServiceError>)
        requires
            old(self).wf(),
        ensures
            final(self).wf(),
            history_kept(*old(self), *final(self)),
            locations_kept(*old(self), *final(self)),
            match delete_location_failure(*old(self), registration_id, location_id) {
                Some(e) => r == Err::<(), ServiceError>(e) && *final(self) == *old(self),
                None => r is Ok && final(self).registrations@ == old(self).registrations@ && final(self).events@
                    == old(self).events@ && others_untouched(*old(self), *final(self))
                    && final(self).promotion_locations@ == rows_without_location(
                    old(self).promotion_locations@,
                    location_id,
                ) && exists|d: int|
                    0 <= d < old(self).locations@.len() && old(self).locations@[d].id == location_id
                        && old(self).locations@[d].registration_id == registration_id && after_delete(
                        old(self).locations@,
                        d,
                        final(self).locations@,
                    ),
            },
    {
        proof {
            lemma_history_kept_refl(*self);
        }
        if self.registration_index(registration_id).is_none() {
            return Err(ServiceError::NotFound(Missing::Registration));
        }
        let d = match self.location_index(registration_id, location_id) {
            Some(i) => i,
            None => return Err(ServiceError::NotFound(Missing::Location)),
        };
        match self.first_location_of(registration_id, Some(d)) {
            Some(_) => {},
            None => {
                proof {
                    assert forall|j: int|
                        0 <= j < self.locations@.len() && (#[trigger] self.locations@[j]).registration_id
                            == registration_id implies self.locations@[j].id == location_id by {
                        if j != d {
                            assert(self.locations@[j].registration_id != registration_id);
                        }
                    }
                }
                return Err(ServiceError::Conflict(ConflictKind::LastLocation));
            },
        }
        proof {
            assert forall|j: int|
                0 <= j < self.locations@.len() && (#[trigger] self.locations@[j]).id == location_id implies j == d by {
            }
        }
        let ghost before = *self;
        let was_primary = self.locations[d].is_primary;
        let removed = self.locations.remove(d);
        let ghost rest = self.locations@;
        let kept_rows = drop_location_rows(&self.promotion_locations, location_id);
        self.promotion_locations = kept_rows;
        if was_primary {
            match self.earliest_location_of(registration_id) {
                Some(f) => {
                    self.locations[f].is_primary = true;
                    proof {
                        assert(self.locations@ =~= rest.update(
                            f as int,
                            BusinessLocation { is_primary: true, ..rest[f as int] },
                        ));
                    }
                },
                None => {
                    proof {
                        let j = choose|j: int|
                            0 <= j < before.locations@.len() && (#[trigger] before.locations@[j]).registration_id
                                == registration_id && j != d;
                        if j < d {
                            assert(rest[j].registration_id == registration_id);
                        } else {
                            assert(rest[j - 1].registration_id == registration_id);
                        }
                    }
                },
            }
        }
        proof {
            let old_locs = before.locations@;
            let locs = self.locations@;
            let rows = self.promotion_locations@;
            let d = d as int;
            assert(locs.len() == rest.len());
            // Every location keeps the identity and owner it had before.
            assert forall|j: int| 0 <= j < locs.len() implies (#[trigger] locs[j]).id == old_locs[if j < d { j } else { j + 1 }].id
                && locs[j].registration_id == old_locs[if j < d { j } else { j + 1 }].registration_id by {
                assert(rest[j] == old_locs[if j < d { j } else { j + 1 }]);
            }
            assert forall|j: int| 0 <= j < locs.len() implies registration_exists(
                self.registrations@,
                (#[trigger] locs[j]).registration_id,
            ) by {
                let o = if j < d { j } else { j + 1 };
                assert(locs[j].registration_id == old_locs[o].registration_id);
            }
            assert forall|a: int, b: int|
                0 <= a < locs.len() && 0 <= b < locs.len() && (#[trigger] locs[a]).id == (#[trigger] locs[b]).id
                    implies a == b by {
                let oa = if a < d { a } else { a + 1 };
                let ob = if b < d { b } else { b + 1 };
                assert(old_locs[oa].id == old_locs[ob].id);
            }
            assert forall|a: int, b: int|
                0 <= a < locs.len() && 0 <= b < locs.len() && (#[trigger] locs[a]).is_primary
                    && (#[trigger] locs[b]).is_primary && locs[a].registration_id == locs[b].registration_id
                    implies a == b by {
                let oa = if a < d { a } else { a + 1 };
                let ob = if b < d { b } else { b + 1 };
                if was_primary {
                    if locs[a].registration_id == registration_id {
                        if rest[a].is_primary {
                            assert(old_locs[oa].is_primary);
                            assert(oa == d);
                        }
                        if rest[b].is_primary {
                            assert(old_locs[ob].is_primary);
                            assert(ob == d);
                        }
                    } else {
                        assert(rest[a].is_primary && rest[b].is_primary);
                        assert(old_locs[oa].is_primary && old_locs[ob].is_primary);
                    }
                } else {
                    assert(old_locs[oa].is_primary && old_locs[ob].is_primary);
                }
            }
            assert forall|q: int, p: int, j: int|
                0 <= q < rows.len() && 0 <= p < self.promotions@.len() && 0 <= j < locs.len()
                    && (#[trigger] rows[q]).promotion_id == (#[trigger] self.promotions@[p]).id
                    && rows[q].location_id == (#[trigger] locs[j]).id implies locs[j].registration_id
                    == self.promotions@[p].registration_id by {
                assert(before.promotion_locations@.contains(rows[q]));
                let k = choose|k: int|
                    0 <= k < before.promotion_locations@.len() && before.promotion_locations@[k] == rows[q];
                let o = if j < d { j } else { j + 1 };
                assert(before.promotion_locations@[k].location_id == old_locs[o].id);
            }
            assert(after_delete(old_locs, d, locs));
            assert forall|reg: u128| #[trigger] has_location(old_locs, reg) implies has_location(locs, reg) by {
                let j = choose|j: int| 0 <= j < old_locs.len() && (#[trigger] old_locs[j]).registration_id == reg;
                let j2 = if j != d {
                    j
                } else {
                    choose|j: int|
                        0 <= j < old_locs.len() && (#[trigger] old_locs[j]).registration_id == registration_id && old_locs[j].id
                            != location_id
                };
                assert(j2 != d);
                let n = if j2 < d { j2 } else { j2 - 1 };
                assert(locs[n].registration_id == reg);
            }
        }
        Ok(())
    }
}

impl Store {
    /// Location `location_id` of registration `registration_id`, if there is one.
    pub fn get_location_by_id(&self, registration_id: u128, location_id: u128) -> (r: Option<&BusinessLocation>)
        ensures
            match r {
                Some(l) => l.id == location_id && l.registration_id == registration_id && self.locations@.contains(*l),
                None => !location_of(self.locations@, location_id, registration_id),
            },
    {
        match self.location_index(registration_id, location_id) {
            Some(i) => {
                proof {
                    assert(self.locations@.contains(self.locations@[i as int]));
                }
                Some(&self.locations[i])
            },
            None => None,
        }
    }

    /// Records that registration `registration_id` became business
    /// `business_id`, at `now`.
    pub fn upsert_business_id(&mut self, registration_id: u128, business_id: u128, now: i64) -> (r: Result<
        (),
        ServiceError,
    >)
        requires
            old(self).wf(),
        ensures
            final(self).wf(),
            history_kept(*old(self), *final(self)),
            locations_kept(*old(self), *final(self)),
            !registration_exists(old(self).registrations@, registration_id) ==> r == Err::<(), ServiceError>(
                ServiceError::NotFound(Missing::Registration),
            ) && *final(self) == *old(self),
            registration_exists(old(self).registrations@, registration_id) ==> r is Ok && exists|i: int|
                0 <= i < old(self).registrations@.len() && old(self).registrations@[i].id == registration_id
                    && final(self).registrations@ == old(self).registrations@.update(
                    i,
                    BusinessRegistration {
                        business_id: Some(business_id),
                        updated_at: now,
                        ..old(self).registrations@[i]
                    },
                ),
            final(self).locations@ == old(self).locations@,
            final(self).events@ == old(self).events@,
            final(self).promotion_locations@ == old(self).promotion_locations@,
            others_untouched(*old(self), *final(self)),
    {
        proof {
            lemma_history_kept_refl(*self);
        }
        let i = match self.registration_index(registration_id) {
            Some(i) => i,
            None => return Err(ServiceError::NotFound(Missing::Registration)),
        };
        let ghost before = *self;
        self.registrations[i].business_id = Some(business_id);
        self.registrations[i].updated_at = now;
        proof {
            let regs = self.registrations@;
            assert(regs =~= before.registrations@.update(
                i as int,
                BusinessRegistration { business_id: Some(business_id), updated_at: now, ..before.registrations@[i as int] },
            ));
            assert forall|a: int, b: int|
                0 <= a < regs.len() && 0 <= b < regs.len() && (#[trigger] regs[a]).id == (#[trigger] regs[b]).id implies a == b by {
                assert(before.registrations@[a].id == before.registrations@[b].id);
            }
            assert forall|j: int| 0 <= j < self.locations@.len() implies registration_exists(
                regs,
                (#[trigger] self.locations@[j]).registration_id,
            ) by {
                let w = choose|w: int|
                    0 <= w < before.registrations@.len() && (#[trigger] before.registrations@[w]).id
                        == self.locations@[j].registration_id;
                assert(regs[w].id == before.registrations@[w].id);
            }
            assert forall|k: int| 0 <= k < self.events@.len() implies registration_exists(
                regs,
                (#[trigger] self.events@[k]).registration_id,
            ) by {
                let w = choose|w: int|
                    0 <= w < before.registrations@.len() && (#[trigger] before.registrations@[w]).id
                        == self.events@[k].registration_id;
                assert(regs[w].id == before.registrations@[w].id);
            }
            assert forall|p: int| 0 <= p < self.promotions@.len() implies registration_exists(
                regs,
                (#[trigger] self.promotions@[p]).registration_id,
            ) by {
                let w = choose|w: int|
                    0 <= w < before.registrations@.len() && (#[trigger] before.registrations@[w]).id
                        == self.promotions@[p].registration_id;
                assert(regs[w].id == before.registrations@[w].id);
            }
            assert(self.events@.subrange(0, self.events@.len() as int) =~= self.events@);
        }
        Ok(())
    }
}

} // verus!
