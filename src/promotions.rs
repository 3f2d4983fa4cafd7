//! Promotions of a registration and their binding to its locations.
//!
//! A location-scoped promotion is bound to a set of locations of its own
//! registration.  The identifiers given are deduplicated, and every one must
//! name a location of the promotion's registration: otherwise the whole
//! operation fails and no binding is written.

use vstd::prelude::*;
use crate::errors::{Missing, ServiceError};
use crate::kinds::BusinessPromotionScope;
use crate::promotion_requests::{
    promotion_from_fields, promotion_updated, CreatePromotionRequest, UpdatePromotionRequest,
};
use crate::queries::{deref_all, groups_by_age, join_by_age, lemma_deref_push};
use crate::records::{BusinessLocation, BusinessPromotion, PromotionLocation};
use crate::store::{
    history_kept, lemma_history_kept_refl, location_of, locations_kept, promotion_id_joined,
    promotion_id_used, registration_exists, Store,
};

verus! {

/// The identifiers in order of first occurrence, each once.
pub open spec fn first_occurrences(ids: Seq<u128>) -> Seq<u128>
    decreases ids.len(),
{
    if ids.len() == 0 {
        ids
    } else {
        let prev = first_occurrences(ids.drop_last());
        if prev.contains(ids.last()) {
            prev
        } else {
            prev.push(ids.last())
        }
    }
}

proof fn lemma_first_occurrences(ids: Seq<u128>)
    ensures
        first_occurrences(ids).no_duplicates(),
        forall|x: u128| first_occurrences(ids).contains(x) <==> ids.contains(x),
    decreases ids.len(),
{
    if ids.len() > 0 {
        lemma_first_occurrences(ids.drop_last());
        let prev = first_occurrences(ids.drop_last());
        let y = ids.last();
        let fo = first_occurrences(ids);
        assert forall|x: u128| fo.contains(x) <==> ids.contains(x) by {
            if ids.contains(x) {
                let k = choose|k: int| 0 <= k < ids.len() && ids[k] == x;
                if k < ids.len() - 1 {
                    assert(ids.drop_last()[k] == x);
                    assert(ids.drop_last().contains(x));
                    assert(prev.contains(x));
                    let w = choose|w: int| 0 <= w < prev.len() && prev[w] == x;
                    if !prev.contains(y) {
                        assert(fo[w] == x);
                    }
                } else {
                    assert(x == y);
                    if !prev.contains(y) {
                        assert(fo[fo.len() - 1] == x);
                    }
                }
                assert(fo.contains(x));
            }
            if fo.contains(x) {
                let w = choose|w: int| 0 <= w < fo.len() && fo[w] == x;
                if w < prev.len() {
                    assert(prev[w] == x);
                    assert(prev.contains(x));
                    assert(ids.drop_last().contains(x));
                    let k = choose|k: int| 0 <= k < ids.len() - 1 && ids.drop_last()[k] == x;
                    assert(ids[k] == x);
                } else {
                    assert(x == y);
                    assert(ids[ids.len() - 1] == x);
                }
                assert(ids.contains(x));
            }
        }
    }
}

/// Removes repeated identifiers, keeping the first occurrence of each in order.
pub fn dedupe_ids(ids: &Vec<u128>) -> (r: Vec<u128>)
    ensures
        r@ == first_occurrences(ids@),
        r@.no_duplicates(),
        forall|x: u128| r@.contains(x) <==> ids@.contains(x),
{
    let mut out: Vec<u128> = Vec::new();
    let mut i: usize = 0;
    while i < ids.len()
        invariant
            i <= ids@.len(),
            out@ == first_occurrences(ids@.subrange(0, i as int)),
        decreases ids@.len() - i,
    {
        let x = ids[i];
        let mut seen = false;
        let mut k: usize = 0;
        while k < out.len()
            invariant
                k <= out@.len(),
                seen == exists|m: int| 0 <= m < k && out@[m] == x,
            decreases out@.len() - k,
        {
            if out[k] == x {
                seen = true;
            }
            k = k + 1;
        }
        proof {
            let s1 = ids@.subrange(0, i + 1);
            assert(s1.drop_last() =~= ids@.subrange(0, i as int));
            assert(s1.last() == x);
        }
        if !seen {
            out.push(x);
        }
        i = i + 1;
    }
    proof {
        assert(ids@.subrange(0, ids@.len() as int) =~= ids@);
        lemma_first_occurrences(ids@);
    }
    out
}

/// The join rows binding promotion `pid` to each of `ids`.
pub open spec fn bound(pid: u128, ids: Seq<u128>) -> Seq<PromotionLocation> {
    Seq::new(ids.len(), |k: int| PromotionLocation { promotion_id: pid, location_id: ids[k] })
}

/// The join rows that do not name promotion `id`.
pub open spec fn rows_without_promotion(rows: Seq<PromotionLocation>, id: u128) -> Seq<PromotionLocation> {
    rows.filter(not_of_promotion(id))
}

/// A join row that does not name promotion `id`.
pub open spec fn not_of_promotion(id: u128) -> spec_fn(PromotionLocation) -> bool {
    |r: PromotionLocation| r.promotion_id != id
}

/// Every identifier names a location of registration `reg`.
pub open spec fn all_locations_of(s: Store, ids: Seq<u128>, reg: u128) -> bool {
    forall|k: int| 0 <= k < ids.len() ==> location_of(s.locations@, #[trigger] ids[k], reg)
}

/// The join rows a promotion with `scope` gets from the identifiers given.
pub open spec fn bindings(pid: u128, scope: BusinessPromotionScope, ids: Seq<u128>) -> Seq<PromotionLocation> {
    if scope == BusinessPromotionScope::Location {
        bound(pid, first_occurrences(ids))
    } else {
        Seq::empty()
    }
}

/// Where `create_promotion` stops, if it does, in the order it checks.
pub open spec fn create_promotion_failure(s: Store, p: BusinessPromotion, ids: Seq<u128>) -> Option<ServiceError> {
    if !registration_exists(s.registrations@, p.registration_id) {
        Some(ServiceError::NotFound(Missing::Registration))
    } else if p.scope == BusinessPromotionScope::Location && !all_locations_of(s, ids, p.registration_id) {
        Some(ServiceError::NotFound(Missing::Location))
    } else if promotion_id_used(s.promotions@, p.id) || promotion_id_joined(s.promotion_locations@, p.id) {
        Some(ServiceError::DuplicateKey)
    } else {
        None
    }
}

/// Only the promotions and their bindings differ.
pub open spec fn only_promotions_changed(old: Store, new: Store) -> bool {
    &&& new.registrations@ == old.registrations@
    &&& new.events@ == old.events@
    &&& new.businesses@ == old.businesses@
    &&& new.locations@ == old.locations@
    &&& new.companies@ == old.companies@
    &&& new.units@ == old.units@
    &&& new.admins@ == old.admins@
}

impl Store {
    /// The position of promotion `id` of registration `reg`.
    pub fn promotion_index(&self, reg: u128, id: u128) -> (r: Option<usize>)
        ensures
            match r {
                Some(i) => i < self.promotions@.len() && self.promotions@[i as int].id == id
                    && self.promotions@[i as int].registration_id == reg,
                None => !exists|i: int|
                    0 <= i < self.promotions@.len() && (#[trigger] self.promotions@[i]).id == id
                        && self.promotions@[i].registration_id == reg,
            },
    {
        let mut i: usize = 0;
        while i < self.promotions.len()
            invariant
                i <= self.promotions@.len(),
                forall|k: int| 0 <= k < i ==> !((#[trigger] self.promotions@[k]).id == id
                    && self.promotions@[k].registration_id == reg),
            decreases self.promotions@.len() - i,
        {
            if self.promotions[i].id == id && self.promotions[i].registration_id == reg {
                return Some(i);
            }
            i = i + 1;
        }
        None
    }

    fn promotion_id_taken(&self, id: u128) -> (r: bool)
        ensures
            r == (promotion_id_used(self.promotions@, id) || promotion_id_joined(self.promotion_locations@, id)),
    {
        let mut i: usize = 0;
        while i < self.promotions.len()
            invariant
                i <= self.promotions@.len(),
                forall|k: int| 0 <= k < i ==> (#[trigger] self.promotions@[k]).id != id,
            decreases self.promotions@.len() - i,
        {
            if self.promotions[i].id == id {
                return true;
            }
            i = i + 1;
        }
        let mut k: usize = 0;
        while k < self.promotion_locations.len()
            invariant
                k <= self.promotion_locations@.len(),
                !promotion_id_used(self.promotions@, id),
                forall|m: int| 0 <= m < k ==> (#[trigger] self.promotion_locations@[m]).promotion_id != id,
            decreases self.promotion_locations@.len() - k,
        {
            if self.promotion_locations[k].promotion_id == id {
                return true;
            }
            k = k + 1;
        }
        false
    }

    /// Whether every identifier names a location of registration `reg`.
    pub fn locations_belong(&self, ids: &Vec<u128>, reg: u128) -> (r: bool)
        ensures
            r == all_locations_of(*self, ids@, reg),
    {
        let mut k: usize = 0;
        while k < ids.len()
            invariant
                k <= ids@.len(),
                forall|m: int| 0 <= m < k ==> location_of(self.locations@, #[trigger] ids@[m], reg),
            decreases ids@.len() - k,
        {
            let mut found = false;
            let mut j: usize = 0;
            while j < self.locations.len()
                invariant
                    j <= self.locations@.len(),
                    k < ids@.len(),
                    found ==> location_of(self.locations@, ids@[k as int], reg),
                    !found ==> forall|g: int| 0 <= g < j ==> !((#[trigger] self.locations@[g]).id == ids@[k as int]
                        && self.locations@[g].registration_id == reg),
                decreases self.locations@.len() - j,
            {
                if self.locations[j].id == ids[k] && self.locations[j].registration_id == reg {
                    found = true;
                }
                j = j + 1;
            }
            if !found {
                proof {
                    assert(!location_of(self.locations@, ids@[k as int], reg));
                }
                return false;
            }
            k = k + 1;
        }
        true
    }

    /// Appends the join rows binding promotion `pid` to each of `ids`.
    fn bind_locations(&mut self, pid: u128, ids: &Vec<u128>)
        ensures
            final(self).promotion_locations@ == old(self).promotion_locations@ + bound(pid, ids@),
            final(self).promotions@ == old(self).promotions@,
            final(self).locations@ == old(self).locations@,
            final(self).registrations@ == old(self).registrations@,
            final(self).events@ == old(self).events@,
            final(self).businesses@ == old(self).businesses@,
            final(self).companies@ == old(self).companies@,
            final(self).units@ == old(self).units@,
            final(self).admins@ == old(self).admins@,
    {
        let mut k: usize = 0;
        while k < ids.len()
            invariant
                k <= ids@.len(),
                self.promotion_locations@ == old(self).promotion_locations@ + bound(pid, ids@.subrange(0, k as int)),
                self.promotions@ == old(self).promotions@,
                self.locations@ == old(self).locations@,
                self.registrations@ == old(self).registrations@,
                self.events@ == old(self).events@,
                self.businesses@ == old(self).businesses@,
                self.companies@ == old(self).companies@,
                self.units@ == old(self).units@,
                self.admins@ == old(self).admins@,
            decreases ids@.len() - k,
        {
            self.promotion_locations.push(PromotionLocation { promotion_id: pid, location_id: ids[k] });
            proof {
                assert(old(self).promotion_locations@ + bound(pid, ids@.subrange(0, k + 1)) =~= self.promotion_locations@);
            }
            k = k + 1;
        }
        proof {
            assert(ids@.subrange(0, ids@.len() as int) =~= ids@);
        }
    }

    /// Removes the join rows of promotion `pid`.
    fn unbind_promotion(&mut self, pid: u128)
        ensures
            final(self).promotion_locations@ == rows_without_promotion(old(self).promotion_locations@, pid),
            forall|q: int|
                0 <= q < final(self).promotion_locations@.len() ==> old(self).promotion_locations@.contains(
                    #[trigger] final(self).promotion_locations@[q],
                ),
            only_promotions_changed(*old(self), *final(self)),
            final(self).promotions@ == old(self).promotions@,
    {
        let rows = &self.promotion_locations;
        let mut out: Vec<PromotionLocation> = Vec::new();
        let mut i: usize = 0;
        while i < rows.len()
            invariant
                i <= rows@.len(),
                out@ == rows_without_promotion(rows@.subrange(0, i as int), pid),
                forall|q: int| 0 <= q < out@.len() ==> rows@.contains(#[trigger] out@[q]),
            decreases rows@.len() - i,
        {
            let ghost s1 = rows@.subrange(0, i + 1);
            proof {
                assert(s1.drop_last() =~= rows@.subrange(0, i as int));
                assert(s1.last() == rows@[i as int]);
                reveal(Seq::filter);
                assert(s1.filter(not_of_promotion(pid)) == (if not_of_promotion(pid)(s1.last()) {
                    s1.drop_last().filter(not_of_promotion(pid)).push(s1.last())
                } else {
                    s1.drop_last().filter(not_of_promotion(pid))
                }));
            }
            let row = rows[i];
            if row.promotion_id != pid {
                out.push(row);
                proof {
                    assert(rows@.contains(rows@[i as int]));
                }
            }
            i = i + 1;
        }
        proof {
            assert(rows@.subrange(0, rows@.len() as int) =~= rows@);
        }
        self.promotion_locations = out;
    }

    /// Stores a promotion with its location bindings in one transaction.  A
    /// location-scoped promotion is bound to each distinct identifier given,
    /// all of which must name locations of the promotion's registration; other
    /// promotions get no binding.
    pub fn create_promotion(&mut self, promotion: BusinessPromotion, location_ids: &Vec<u128>) -> (r: Result<
        (),
        ServiceError,
    >)
        requires
            old(self).wf(),
        ensures
            final(self).wf(),
            history_kept(*old(self), *final(self)),
            locations_kept(*old(self), *final(self)),
            match create_promotion_failure(*old(self), promotion, location_ids@) {
                Some(e) => r == Err::<(), ServiceError>(e) && *final(self) == *old(self),
                None => r is Ok && only_promotions_changed(*old(self), *final(self)) && final(self).promotions@
                    == old(self).promotions@.push(promotion) && final(self).promotion_locations@
                    == old(self).promotion_locations@ + bindings(promotion.id, promotion.scope, location_ids@),
            },
    {
        proof {
            lemma_history_kept_refl(*self);
        }
        let reg = promotion.registration_id;
        if self.registration_index(reg).is_none() {
            return Err(ServiceError::NotFound(Missing::Registration));
        }
        let scoped = matches!(promotion.scope, BusinessPromotionScope::Location);
        if scoped && !self.locations_belong(location_ids, reg) {
            return Err(ServiceError::NotFound(Missing::Location));
        }
        if self.promotion_id_taken(promotion.id) {
            return Err(ServiceError::DuplicateKey);
        }
        let ghost before = *self;
        let pid = promotion.id;
        let ghost p = promotion;
        self.promotions.push(promotion);
        let ghost mid = *self;
        let unique = dedupe_ids(location_ids);
        if scoped {
            self.bind_locations(pid, &unique);
        } else {
            proof {
                assert(self.promotion_locations@ =~= before.promotion_locations@ + bindings(pid, p.scope, location_ids@));
            }
        }
        proof {
            let promos = self.promotions@;
            let locs = self.locations@;
            let rows = self.promotion_locations@;
            let n = before.promotions@.len();
            let m = before.promotion_locations@.len();
            assert forall|a: int, b: int|
                0 <= a < promos.len() && 0 <= b < promos.len() && (#[trigger] promos[a]).id == (#[trigger] promos[b]).id
                    implies a == b by {
                if a < n && b < n {
                    assert(before.promotions@[a].id == before.promotions@[b].id);
                } else if a < n {
                    assert(promotion_id_used(before.promotions@, pid));
                } else if b < n {
                    assert(promotion_id_used(before.promotions@, pid));
                }
            }
            assert forall|q: int, i: int, j: int|
                0 <= q < rows.len() && 0 <= i < promos.len() && 0 <= j < locs.len()
                    && (#[trigger] rows[q]).promotion_id == (#[trigger] promos[i]).id
                    && rows[q].location_id == (#[trigger] locs[j]).id implies locs[j].registration_id
                    == promos[i].registration_id by {
                if q < m {
                    assert(rows[q] == before.promotion_locations@[q]);
                    if i == n {
                        assert(promotion_id_joined(before.promotion_locations@, pid));
                    }
                } else {
                    assert(scoped);
                    let x = rows[q].location_id;
                    assert(rows[q] == bound(pid, unique@)[q - m]);
                    assert(unique@.contains(x));
                    assert(location_ids@.contains(x));
                    let k = choose|k: int| 0 <= k < location_ids@.len() && location_ids@[k] == x;
                    assert(location_of(locs, location_ids@[k], reg));
                    let w = choose|w: int| 0 <= w < locs.len() && (#[trigger] locs[w]).id == x && locs[w].registration_id == reg;
                    assert(w == j);
                    if i < n {
                        assert(promotion_id_used(before.promotions@, pid));
                    }
                }
            }
            assert(self.events@.subrange(0, before.events@.len() as int) =~= before.events@);
        }
        Ok(())
    }
}

/// Promotion `pid` belongs to registration `reg`.
pub open spec fn promotion_of(s: Store, pid: u128, reg: u128) -> bool {
    exists|i: int|
        0 <= i < s.promotions@.len() && (#[trigger] s.promotions@[i]).id == pid && s.promotions@[i].registration_id == reg
}

/// Where `update_promotion` stops, if it does, in the order it checks.
pub open spec fn update_promotion_failure(
    s: Store,
    reg: u128,
    pid: u128,
    req: UpdatePromotionRequest,
) -> Option<ServiceError> {
    if !registration_exists(s.registrations@, reg) {
        Some(ServiceError::NotFound(Missing::Registration))
    } else if req.problem() is Some {
        Some(ServiceError::Validation(req.problem()->0))
    } else if !promotion_of(s, pid, reg) {
        Some(ServiceError::NotFound(Missing::Promotion))
    } else if req.fields.scope == BusinessPromotionScope::Location && !all_locations_of(s, req.fields.location_ids@, reg) {
        Some(ServiceError::NotFound(Missing::Location))
    } else {
        None
    }
}

/// The location identifiers bound to promotion `pid`, in row order.
pub open spec fn locations_bound_to(rows: Seq<PromotionLocation>, pid: u128) -> Seq<u128>
    decreases rows.len(),
{
    if rows.len() == 0 {
        Seq::empty()
    } else {
        let prev = locations_bound_to(rows.drop_last(), pid);
        if rows.last().promotion_id == pid {
            prev.push(rows.last().location_id)
        } else {
            prev
        }
    }
}

impl Store {
    /// Adds a promotion to registration `registration_id` from its payload, by
    /// `actor_id`, under a fresh random identifier; its status is derived from
    /// the current time.
    pub fn add_promotion(
        &mut self,
        registration_id: u128,
        req: CreatePromotionRequest,
        actor_id: Option<u128>,
    ) -> (r: Result<u128, ServiceError>)
        requires
            old(self).wf(),
        ensures
            final(self).wf(),
            history_kept(*old(self), *final(self)),
            locations_kept(*old(self), *final(self)),
            r is Err ==> *final(self) == *old(self),
            !registration_exists(old(self).registrations@, registration_id) ==> r == Err::<u128, ServiceError>(
                ServiceError::NotFound(Missing::Registration),
            ),
            registration_exists(old(self).registrations@, registration_id) && req.problem() is Some ==> r
                == Err::<u128, ServiceError>(ServiceError::Validation(req.problem()->0)),
            registration_exists(old(self).registrations@, registration_id) && req.problem() is None
                && req.fields.scope == BusinessPromotionScope::Location && !all_locations_of(
                *old(self),
                req.fields.location_ids@,
                registration_id,
            ) ==> r == Err::<u128, ServiceError>(ServiceError::NotFound(Missing::Location)),
            registration_exists(old(self).registrations@, registration_id) && req.problem() is None && (
            req.fields.scope == BusinessPromotionScope::Location ==> all_locations_of(
                *old(self),
                req.fields.location_ids@,
                registration_id,
            )) && r is Err ==> r == Err::<u128, ServiceError>(ServiceError::DuplicateKey),
            r is Ok ==> {
                let p = final(self).promotions@.last();
                &&& p.id == r->Ok_0
                &&& promotion_from_fields(p, req.fields, registration_id, actor_id, p.created_at)
                &&& only_promotions_changed(*old(self), *final(self))
                &&& final(self).promotions@ == old(self).promotions@.push(p)
                &&& final(self).promotion_locations@ == old(self).promotion_locations@ + bindings(
                    p.id,
                    req.fields.scope,
                    req.fields.location_ids@,
                )
            },
    {
        proof {
            lemma_history_kept_refl(*self);
        }
        if self.registration_index(registration_id).is_none() {
            return Err(ServiceError::NotFound(Missing::Registration));
        }
        if let Err(e) = req.check() {
            return Err(ServiceError::Validation(e));
        }
        let ghost fields = req.fields;
        let (promotion, location_ids) = req.into_new_promotion(registration_id, actor_id);
        let id = promotion.id;
        let ghost made = promotion;
        let r = self.create_promotion(promotion, &location_ids);
        match r {
            Ok(()) => {
                proof {
                    assert(self.promotions@.last() == made);
                }
                Ok(id)
            },
            Err(e) => Err(e),
        }
    }

    /// Rewrites promotion `promotion_id` of registration `registration_id`
    /// from its payload, by `actor_id` at `now`, and replaces all its location
    /// bindings with the validated set, in one transaction.  Its status is the
    /// one the payload gives.
    pub fn update_promotion(
        &mut self,
        registration_id: u128,
        promotion_id: u128,
        req: UpdatePromotionRequest,
        actor_id: Option<u128>,
        now: i64,
    ) -> (r: Result<(), ServiceError>)
        requires
            old(self).wf(),
        ensures
            final(self).wf(),
            history_kept(*old(self), *final(self)),
            locations_kept(*old(self), *final(self)),
            match update_promotion_failure(*old(self), registration_id, promotion_id, req) {
                Some(e) => r == Err::<(), ServiceError>(e) && *final(self) == *old(self),
                None => r is Ok && only_promotions_changed(*old(self), *final(self)) && exists|i: int|
                    0 <= i < old(self).promotions@.len() && old(self).promotions@[i].id == promotion_id
                        && final(self).promotions@ == old(self).promotions@.update(i, final(self).promotions@[i])
                        && promotion_updated(old(self).promotions@[i], final(self).promotions@[i], req, actor_id, now)
                        && final(self).promotion_locations@ == rows_without_promotion(
                        old(self).promotion_locations@,
                        promotion_id,
                    ) + bindings(promotion_id, req.fields.scope, req.fields.location_ids@),
            },
    {
        proof {
            lemma_history_kept_refl(*self);
        }
        if self.registration_index(registration_id).is_none() {
            return Err(ServiceError::NotFound(Missing::Registration));
        }
        if let Err(e) = req.check() {
            return Err(ServiceError::Validation(e));
        }
        let idx = match self.promotion_index(registration_id, promotion_id) {
            Some(i) => i,
            None => return Err(ServiceError::NotFound(Missing::Promotion)),
        };
        let scoped = matches!(req.fields.scope, BusinessPromotionScope::Location);
        if scoped && !self.locations_belong(&req.fields.location_ids, registration_id) {
            return Err(ServiceError::NotFound(Missing::Location));
        }
        let ghost before = *self;
        req.apply_to_existing(&mut self.promotions[idx], actor_id, now);
        let ghost updated = self.promotions@;
        self.unbind_promotion(promotion_id);
        let ghost kept = self.promotion_locations@;
        let unique = dedupe_ids(&req.fields.location_ids);
        if scoped {
            self.bind_locations(promotion_id, &unique);
        } else {
            proof {
                assert(self.promotion_locations@ =~= kept + bindings(promotion_id, req.fields.scope, req.fields.location_ids@));
            }
        }
        proof {
            let promos = self.promotions@;
            let locs = self.locations@;
            let rows = self.promotion_locations@;
            let m = kept.len();
            assert(promos =~= before.promotions@.update(idx as int, promos[idx as int]));
            assert forall|a: int, b: int|
                0 <= a < promos.len() && 0 <= b < promos.len() && (#[trigger] promos[a]).id == (#[trigger] promos[b]).id
                    implies a == b by {
                assert(before.promotions@[a].id == before.promotions@[b].id);
            }
            assert forall|q: int, i: int, j: int|
                0 <= q < rows.len() && 0 <= i < promos.len() && 0 <= j < locs.len()
                    && (#[trigger] rows[q]).promotion_id == (#[trigger] promos[i]).id
                    && rows[q].location_id == (#[trigger] locs[j]).id implies locs[j].registration_id
                    == promos[i].registration_id by {
                assert(promos[i].id == before.promotions@[i].id);
                assert(promos[i].registration_id == before.promotions@[i].registration_id);
                if q < m {
                    assert(rows[q] == kept[q]);
                    assert(before.promotion_locations@.contains(kept[q]));
                    let k = choose|k: int|
                        0 <= k < before.promotion_locations@.len() && before.promotion_locations@[k] == kept[q];
                    assert(before.promotion_locations@[k] == rows[q]);
                } else {
                    let x = rows[q].location_id;
                    assert(rows[q] == bound(promotion_id, unique@)[q - m]);
                    assert(unique@.contains(x));
                    let k = choose|k: int|
                        0 <= k < req.fields.location_ids@.len() && req.fields.location_ids@[k] == x;
                    assert(location_of(locs, req.fields.location_ids@[k], registration_id));
                    let w = choose|w: int|
                        0 <= w < locs.len() && (#[trigger] locs[w]).id == x && locs[w].registration_id == registration_id;
                    assert(w == j);
                    assert(before.promotions@[i].id == promotion_id);
                    assert(i == idx);
                }
            }
            assert(self.events@.subrange(0, before.events@.len() as int) =~= before.events@);
        }
        Ok(())
    }

    /// Deletes promotion `promotion_id` of registration `registration_id` with
    /// its location bindings.
    pub fn delete_promotion(&mut self, registration_id: u128, promotion_id: u128) -> (r: Result<(), ServiceError>)
        requires
            old(self).wf(),
        ensures
            final(self).wf(),
            history_kept(*old(self), *final(self)),
            locations_kept(*old(self), *final(self)),
            !registration_exists(old(self).registrations@, registration_id) ==> r == Err::<(), ServiceError>(
                ServiceError::NotFound(Missing::Registration),
            ) && *final(self) == *old(self),
            registration_exists(old(self).registrations@, registration_id) && !promotion_of(
                *old(self),
                promotion_id,
                registration_id,
            ) ==> r == Err::<(), ServiceError>(ServiceError::NotFound(Missing::Promotion)) && *final(self)
                == *old(self),
            r is Ok ==> only_promotions_changed(*old(self), *final(self)) && final(self).promotion_locations@
                == rows_without_promotion(old(self).promotion_locations@, promotion_id) && exists|i: int|
                0 <= i < old(self).promotions@.len() && old(self).promotions@[i].id == promotion_id
                    && old(self).promotions@[i].registration_id == registration_id && final(self).promotions@
                    == old(self).promotions@.remove(i),
            registration_exists(old(self).registrations@, registration_id) && promotion_of(
                *old(self),
                promotion_id,
                registration_id,
            ) ==> r is Ok,
    {
        proof {
            lemma_history_kept_refl(*self);
        }
        if self.registration_index(registration_id).is_none() {
            return Err(ServiceError::NotFound(Missing::Registration));
        }
        let idx = match self.promotion_index(registration_id, promotion_id) {
            Some(i) => i,
            None => return Err(ServiceError::NotFound(Missing::Promotion)),
        };
        let ghost before = *self;
        self.promotions.remove(idx);
        self.unbind_promotion(promotion_id);
        proof {
            let promos = self.promotions@;
            let locs = self.locations@;
            let rows = self.promotion_locations@;
            let d = idx as int;
            assert forall|a: int, b: int|
                0 <= a < promos.len() && 0 <= b < promos.len() && (#[trigger] promos[a]).id == (#[trigger] promos[b]).id
                    implies a == b by {
                let oa = if a < d { a } else { a + 1 };
                let ob = if b < d { b } else { b + 1 };
                assert(before.promotions@[oa].id == before.promotions@[ob].id);
            }
            assert forall|q: int, i: int, j: int|
                0 <= q < rows.len() && 0 <= i < promos.len() && 0 <= j < locs.len()
                    && (#[trigger] rows[q]).promotion_id == (#[trigger] promos[i]).id
                    && rows[q].location_id == (#[trigger] locs[j]).id implies locs[j].registration_id
                    == promos[i].registration_id by {
                let o = if i < d { i } else { i + 1 };
                assert(promos[i] == before.promotions@[o]);
                assert(before.promotion_locations@.contains(rows[q]));
                let k = choose|k: int|
                    0 <= k < before.promotion_locations@.len() && before.promotion_locations@[k] == rows[q];
                assert(before.promotion_locations@[k] == rows[q]);
            }
            assert(self.events@.subrange(0, before.events@.len() as int) =~= before.events@);
        }
        Ok(())
    }

    /// The locations promotion `pid` is bound to, in binding order.
    pub fn promotion_location_ids(&self, pid: u128) -> (r: Vec<u128>)
        ensures
            r@ == locations_bound_to(self.promotion_locations@, pid),
    {
        let rows = &self.promotion_locations;
        let mut out: Vec<u128> = Vec::new();
        let mut i: usize = 0;
        while i < rows.len()
            invariant
                i <= rows@.len(),
                out@ == locations_bound_to(rows@.subrange(0, i as int), pid),
            decreases rows@.len() - i,
        {
            proof {
                let s1 = rows@.subrange(0, i + 1);
                assert(s1.drop_last() =~= rows@.subrange(0, i as int));
                assert(s1.last() == rows@[i as int]);
            }
            if rows[i].promotion_id == pid {
                out.push(rows[i].location_id);
            }
            i = i + 1;
        }
        proof {
            assert(rows@.subrange(0, rows@.len() as int) =~= rows@);
        }
        out
    }
}

/// The promotions of registration `reg`, in creation order.
pub open spec fn promotions_of(ps: Seq<BusinessPromotion>, reg: u128) -> Seq<BusinessPromotion>
    decreases ps.len(),
{
    if ps.len() == 0 {
        Seq::empty()
    } else if ps.last().registration_id == reg {
        promotions_of(ps.drop_last(), reg).push(ps.last())
    } else {
        promotions_of(ps.drop_last(), reg)
    }
}

/// The locations whose identifier is among `ids` and whose primary flag is
/// `primary`, in creation order.
pub open spec fn locations_among(locs: Seq<BusinessLocation>, ids: Seq<u128>, primary: bool) -> Seq<BusinessLocation>
    decreases locs.len(),
{
    if locs.len() == 0 {
        Seq::empty()
    } else if ids.contains(locs.last().id) && locs.last().is_primary == primary {
        locations_among(locs.drop_last(), ids, primary).push(locs.last())
    } else {
        locations_among(locs.drop_last(), ids, primary)
    }
}

impl Store {
    /// The promotions of registration `reg`, in creation order.
    pub fn list_promotions_for_registration(&self, reg: u128) -> (r: Vec<&BusinessPromotion>)
        ensures
            deref_all(r@) == promotions_of(self.promotions@, reg),
    {
        let mut out: Vec<&BusinessPromotion> = Vec::new();
        let mut i: usize = 0;
        proof {
            assert(deref_all(out@) =~= Seq::<BusinessPromotion>::empty());
        }
        while i < self.promotions.len()
            invariant
                i <= self.promotions@.len(),
                deref_all(out@) == promotions_of(self.promotions@.subrange(0, i as int), reg),
            decreases self.promotions@.len() - i,
        {
            proof {
                let s1 = self.promotions@.subrange(0, i + 1);
                assert(s1.drop_last() =~= self.promotions@.subrange(0, i as int));
                assert(s1.last() == self.promotions@[i as int]);
            }
            if self.promotions[i].registration_id == reg {
                proof {
                    lemma_deref_push(out@, &self.promotions@[i as int]);
                }
                out.push(&self.promotions[i]);
            }
            i = i + 1;
        }
        proof {
            assert(self.promotions@.subrange(0, self.promotions@.len() as int) =~= self.promotions@);
        }
        out
    }

    /// Appends the locations whose identifier is among `ids` and whose primary
    /// flag is `primary`, in creation order.
    fn push_locations_among<'a>(&'a self, out: &mut Vec<&'a BusinessLocation>, ids: &Vec<u128>, primary: bool)
        ensures
            deref_all(final(out)@) == deref_all(old(out)@) + locations_among(self.locations@, ids@, primary),
    {
        let ghost start = deref_all(out@);
        let mut i: usize = 0;
        proof {
            assert(start + locations_among(self.locations@.subrange(0, 0), ids@, primary) =~= start);
        }
        while i < self.locations.len()
            invariant
                i <= self.locations@.len(),
                deref_all(out@) == start + locations_among(self.locations@.subrange(0, i as int), ids@, primary),
            decreases self.locations@.len() - i,
        {
            proof {
                let s1 = self.locations@.subrange(0, i + 1);
                assert(s1.drop_last() =~= self.locations@.subrange(0, i as int));
                assert(s1.last() == self.locations@[i as int]);
            }
            let loc = &self.locations[i];
            let mut found = false;
            let mut k: usize = 0;
            while k < ids.len()
                invariant
                    k <= ids@.len(),
                    found == exists|m: int| 0 <= m < k && ids@[m] == loc.id,
                decreases ids@.len() - k,
            {
                if ids[k] == loc.id {
                    found = true;
                }
                k = k + 1;
            }
            if found && loc.is_primary == primary {
                proof {
                    lemma_deref_push(out@, loc);
                }
                out.push(loc);
                proof {
                    assert(deref_all(out@) =~= start + locations_among(self.locations@.subrange(0, i + 1), ids@, primary));
                }
            }
            i = i + 1;
        }
        proof {
            assert(self.locations@.subrange(0, self.locations@.len() as int) =~= self.locations@);
        }
    }

    /// Promotion `pid` of registration `reg` with the locations it is bound
    /// to: the primary one first, then the others, oldest `created_at` first.
    pub fn get_promotion_with_locations(&self, reg: u128, pid: u128) -> (r: Option<
        (&BusinessPromotion, Vec<&BusinessLocation>),
    >)
        ensures
            match r {
                Some((p, locs)) => p.id == pid && p.registration_id == reg && self.promotions@.contains(*p) && {
                    let ids = locations_bound_to(self.promotion_locations@, pid);
                    groups_by_age(
                        deref_all(locs@),
                        locations_among(self.locations@, ids, true),
                        locations_among(self.locations@, ids, false),
                    )
                },
                None => !promotion_of(*self, pid, reg),
            },
    {
        let idx = match self.promotion_index(reg, pid) {
            Some(i) => i,
            None => return None,
        };
        let ids = self.promotion_location_ids(pid);
        let mut primary: Vec<&BusinessLocation> = Vec::new();
        let mut others: Vec<&BusinessLocation> = Vec::new();
        proof {
            assert(deref_all(primary@) =~= Seq::<BusinessLocation>::empty());
            assert(deref_all(others@) =~= Seq::<BusinessLocation>::empty());
        }
        self.push_locations_among(&mut primary, &ids, true);
        self.push_locations_among(&mut others, &ids, false);
        proof {
            assert(Seq::<BusinessLocation>::empty() + locations_among(self.locations@, ids@, true) =~= locations_among(
                self.locations@,
                ids@,
                true,
            ));
            assert(Seq::<BusinessLocation>::empty() + locations_among(self.locations@, ids@, false) =~= locations_among(
                self.locations@,
                ids@,
                false,
            ));
            assert(self.promotions@.contains(self.promotions@[idx as int]));
        }
        Some((&self.promotions[idx], join_by_age(primary, others)))
    }
}

} // verus!
