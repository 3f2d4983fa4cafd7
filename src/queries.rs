//! Read-only views of the store.
//!
//! Lists follow creation order unless stated otherwise; review events come
//! oldest first and a user's registrations newest first, by their timestamps.

use vstd::prelude::*;
use crate::kinds::BusinessVerificationStatus;
use crate::records::{
    BusinessCompany, BusinessLocation, BusinessRegistration, BusinessReviewEvent, BusinessUnit,
    LocationAdmin, ReviewStats,
};
use crate::store::Store;

verus! {

/// The values a sequence of references points at.
pub open spec fn deref_all<T>(s: Seq<&T>) -> Seq<T> {
    s.map_values(|x: &T| *x)
}

pub proof fn lemma_deref_insert<T>(s: Seq<&T>, i: int, x: &T)
    requires
        0 <= i <= s.len(),
    ensures
        deref_all(s.insert(i, x)) == deref_all(s).insert(i, *x),
{
    assert(deref_all(s.insert(i, x)) =~= deref_all(s).insert(i, *x));
}

pub proof fn lemma_deref_push<T>(s: Seq<&T>, x: &T)
    ensures
        deref_all(s.push(x)) == deref_all(s).push(*x),
{
    assert(deref_all(s.push(x)) =~= deref_all(s).push(*x));
}

/// The review events of registration `reg`, oldest first.
pub open spec fn events_of(es: Seq<BusinessReviewEvent>, reg: u128) -> Seq<BusinessReviewEvent>
    decreases es.len(),
{
    if es.len() == 0 {
        Seq::empty()
    } else if es.last().registration_id == reg {
        events_of(es.drop_last(), reg).push(es.last())
    } else {
        events_of(es.drop_last(), reg)
    }
}

/// The events come in non-decreasing `created_at` order.
pub open spec fn oldest_first(s: Seq<BusinessReviewEvent>) -> bool {
    forall|a: int, b: int| 0 <= a < b < s.len() ==> s[a].created_at <= s[b].created_at
}

/// The registrations come in non-increasing `submitted_at` order.
pub open spec fn newest_first(s: Seq<BusinessRegistration>) -> bool {
    forall|a: int, b: int| 0 <= a < b < s.len() ==> s[a].submitted_at >= s[b].submitted_at
}

/// The locations come in non-decreasing `created_at` order.
pub open spec fn oldest_created_first(s: Seq<BusinessLocation>) -> bool {
    forall|a: int, b: int| 0 <= a < b < s.len() ==> s[a].created_at <= s[b].created_at
}

/// `d` holds the locations of `first`, oldest `created_at` first, followed by
/// those of `second` in the same order.
pub open spec fn groups_by_age(d: Seq<BusinessLocation>, first: Seq<BusinessLocation>, second: Seq<BusinessLocation>) -> bool {
    let n = first.len() as int;
    &&& d.len() == first.len() + second.len()
    &&& d.subrange(0, n).to_multiset() == first.to_multiset()
    &&& oldest_created_first(d.subrange(0, n))
    &&& d.subrange(n, d.len() as int).to_multiset() == second.to_multiset()
    &&& oldest_created_first(d.subrange(n, d.len() as int))
}

/// The locations of registration `reg` with the given primary flag.
pub open spec fn locations_flagged(locs: Seq<BusinessLocation>, reg: u128, primary: bool) -> Seq<BusinessLocation>
    decreases locs.len(),
{
    if locs.len() == 0 {
        Seq::empty()
    } else if locs.last().registration_id == reg && locs.last().is_primary == primary {
        locations_flagged(locs.drop_last(), reg, primary).push(locs.last())
    } else {
        locations_flagged(locs.drop_last(), reg, primary)
    }
}

/// The registrations still awaiting a decision, oldest first.
pub open spec fn awaiting(regs: Seq<BusinessRegistration>) -> Seq<BusinessRegistration>
    decreases regs.len(),
{
    if regs.len() == 0 {
        Seq::empty()
    } else if regs.last().status.spec_awaits_review() {
        awaiting(regs.drop_last()).push(regs.last())
    } else {
        awaiting(regs.drop_last())
    }
}

/// The registrations of user `user`, oldest first.
pub open spec fn registrations_of(regs: Seq<BusinessRegistration>, user: u128) -> Seq<BusinessRegistration>
    decreases regs.len(),
{
    if regs.len() == 0 {
        Seq::empty()
    } else if regs.last().user_id == user {
        registrations_of(regs.drop_last(), user).push(regs.last())
    } else {
        registrations_of(regs.drop_last(), user)
    }
}

/// The active administrators of location `loc`, oldest grant first.
pub open spec fn active_admins_of(admins: Seq<LocationAdmin>, loc: u128) -> Seq<LocationAdmin>
    decreases admins.len(),
{
    if admins.len() == 0 {
        Seq::empty()
    } else if admins.last().location_id == loc && admins.last().is_active {
        active_admins_of(admins.drop_last(), loc).push(admins.last())
    } else {
        active_admins_of(admins.drop_last(), loc)
    }
}

/// The active companies owned by user `user`, oldest first.
pub open spec fn companies_of(cs: Seq<BusinessCompany>, user: u128) -> Seq<BusinessCompany>
    decreases cs.len(),
{
    if cs.len() == 0 {
        Seq::empty()
    } else if cs.last().owner_user_id == user && cs.last().is_active {
        companies_of(cs.drop_last(), user).push(cs.last())
    } else {
        companies_of(cs.drop_last(), user)
    }
}

/// The active units of company `company` with the given primary flag.
pub open spec fn units_flagged(us: Seq<BusinessUnit>, company: u128, primary: bool) -> Seq<BusinessUnit>
    decreases us.len(),
{
    if us.len() == 0 {
        Seq::empty()
    } else if us.last().company_id == company && us.last().is_active && us.last().is_primary == primary {
        units_flagged(us.drop_last(), company, primary).push(us.last())
    } else {
        units_flagged(us.drop_last(), company, primary)
    }
}

/// How many registrations have status `st` and, when `since` is given, were
/// submitted at or after it.
pub open spec fn count_status(regs: Seq<BusinessRegistration>, st: BusinessVerificationStatus, since: Option<i64>) -> nat
    decreases regs.len(),
{
    if regs.len() == 0 {
        0
    } else {
        let r = regs.last();
        let hit = r.status == st && match since {
            Some(t) => r.submitted_at >= t,
            None => true,
        };
        count_status(regs.drop_last(), st, since) + if hit {
            1nat
        } else {
            0nat
        }
    }
}

/// One day in microseconds.
pub const DAY_MICROS: i64 = 86_400_000_000;

/// The start of the day-long window that ends at `now`, or the earliest time
/// when the window reaches past it.
pub open spec fn day_before(now: i64) -> i64 {
    if now >= i64::MIN + DAY_MICROS {
        (now - DAY_MICROS) as i64
    } else {
        i64::MIN
    }
}

proof fn lemma_count_bounded(regs: Seq<BusinessRegistration>, st: BusinessVerificationStatus, since: Option<i64>)
    ensures
        count_status(regs, st, since) <= regs.len(),
    decreases regs.len(),
{
    if regs.len() > 0 {
        lemma_count_bounded(regs.drop_last(), st, since);
    }
}

/// The locations, oldest `created_at` first.
pub fn sort_by_creation<'a>(v: Vec<&'a BusinessLocation>) -> (r: Vec<&'a BusinessLocation>)
    ensures
        deref_all(r@).to_multiset() == deref_all(v@).to_multiset(),
        oldest_created_first(deref_all(r@)),
{
    let mut out: Vec<&BusinessLocation> = Vec::new();
    let mut i: usize = 0;
    proof {
        assert(deref_all(out@) =~= Seq::<BusinessLocation>::empty());
        assert(deref_all(v@.subrange(0, 0)) =~= Seq::<BusinessLocation>::empty());
    }
    while i < v.len()
        invariant
            i <= v@.len(),
            deref_all(out@).to_multiset() == deref_all(v@.subrange(0, i as int)).to_multiset(),
            oldest_created_first(deref_all(out@)),
        decreases v@.len() - i,
    {
        let ghost prefix = deref_all(v@.subrange(0, i as int));
        let x = v[i];
        proof {
            assert(deref_all(v@.subrange(0, i + 1)) =~= prefix.push(*x));
        }
        let ghost d = deref_all(out@);
        let mut p: usize = 0;
        while p < out.len() && out[p].created_at <= x.created_at
            invariant
                p <= out@.len(),
                d == deref_all(out@),
                forall|q: int| 0 <= q < p ==> (#[trigger] d[q]).created_at <= x.created_at,
            decreases out@.len() - p,
        {
            p = p + 1;
        }
        proof {
            assert forall|q: int| p <= q < d.len() implies (#[trigger] d[q]).created_at > x.created_at by {
                assert(d[p as int].created_at > x.created_at);
            }
            lemma_deref_insert(out@, p as int, x);
            vstd::seq_lib::to_multiset_insert(d, p as int, *x);
            vstd::seq_lib::to_multiset_build(prefix, *x);
        }
        out.insert(p, x);
        proof {
            let n = deref_all(out@);
            assert(n == d.insert(p as int, *x));
            assert forall|a: int, b: int| 0 <= a < b < n.len() implies n[a].created_at <= n[b].created_at by {
                let oa = if a < p { a } else { a - 1 };
                let ob = if b < p { b } else { b - 1 };
                if a != p && b != p {
                    assert(n[a] == d[oa] && n[b] == d[ob]);
                } else if a == p {
                    assert(n[b] == d[ob]);
                } else {
                    assert(n[a] == d[oa]);
                }
            }
        }
        i = i + 1;
    }
    proof {
        assert(v@.subrange(0, v@.len() as int) =~= v@);
    }
    out
}

/// The locations of `first`, then those of `second`, each group oldest
/// `created_at` first.
pub fn join_by_age<'a>(first: Vec<&'a BusinessLocation>, second: Vec<&'a BusinessLocation>) -> (r: Vec<
    &'a BusinessLocation,
>)
    ensures
        groups_by_age(deref_all(r@), deref_all(first@), deref_all(second@)),
{
    let mut out = sort_by_creation(first);
    let mut rest = sort_by_creation(second);
    let ghost a = deref_all(out@);
    let ghost b = deref_all(rest@);
    out.append(&mut rest);
    proof {
        let d = deref_all(out@);
        assert(d =~= a + b);
        vstd::seq_lib::to_multiset_len(a);
        vstd::seq_lib::to_multiset_len(b);
        vstd::seq_lib::to_multiset_len(deref_all(first@));
        vstd::seq_lib::to_multiset_len(deref_all(second@));
        assert(d.subrange(0, a.len() as int) =~= a);
        assert(d.subrange(a.len() as int, d.len() as int) =~= b);
    }
    out
}

impl Store {
    /// The review events of registration `reg`, oldest `created_at` first.
    pub fn list_review_events(&self, reg: u128) -> (r: Vec<&BusinessReviewEvent>)
        ensures
            deref_all(r@).to_multiset() == events_of(self.events@, reg).to_multiset(),
            oldest_first(deref_all(r@)),
    {
        let mut out: Vec<&BusinessReviewEvent> = Vec::new();
        let mut i: usize = 0;
        proof {
            assert(deref_all(out@) =~= Seq::<BusinessReviewEvent>::empty());
            assert(events_of(self.events@.subrange(0, 0), reg) =~= Seq::<BusinessReviewEvent>::empty());
        }
        while i < self.events.len()
            invariant
                i <= self.events@.len(),
                deref_all(out@).to_multiset() == events_of(self.events@.subrange(0, i as int), reg).to_multiset(),
                oldest_first(deref_all(out@)),
            decreases self.events@.len() - i,
        {
            let ghost prefix = events_of(self.events@.subrange(0, i as int), reg);
            proof {
                let s1 = self.events@.subrange(0, i + 1);
                assert(s1.drop_last() =~= self.events@.subrange(0, i as int));
                assert(s1.last() == self.events@[i as int]);
            }
            let e = &self.events[i];
            if e.registration_id == reg {
                let ghost d = deref_all(out@);
                let mut p: usize = 0;
                while p < out.len() && out[p].created_at <= e.created_at
                    invariant
                        p <= out@.len(),
                        d == deref_all(out@),
                        forall|q: int| 0 <= q < p ==> (#[trigger] d[q]).created_at <= e.created_at,
                    decreases out@.len() - p,
                {
                    p = p + 1;
                }
                proof {
                    assert forall|q: int| p <= q < d.len() implies (#[trigger] d[q]).created_at > e.created_at by {
                        assert(d[p as int].created_at > e.created_at);
                    }
                    lemma_deref_insert(out@, p as int, e);
                    vstd::seq_lib::to_multiset_insert(d, p as int, *e);
                    vstd::seq_lib::to_multiset_build(prefix, *e);
                }
                out.insert(p, e);
                proof {
                    let n = deref_all(out@);
                    assert(n == d.insert(p as int, *e));
                    assert forall|a: int, b: int| 0 <= a < b < n.len() implies n[a].created_at <= n[b].created_at by {
                        let oa = if a < p { a } else { a - 1 };
                        let ob = if b < p { b } else { b - 1 };
                        if a != p && b != p {
                            assert(n[a] == d[oa] && n[b] == d[ob]);
                        } else if a == p {
                            assert(n[b] == d[ob]);
                        } else {
                            assert(n[a] == d[oa]);
                        }
                    }
                }
            }
            i = i + 1;
        }
        proof {
            assert(self.events@.subrange(0, self.events@.len() as int) =~= self.events@);
        }
        out
    }

    fn push_locations_flagged<'a>(&'a self, out: &mut Vec<&'a BusinessLocation>, reg: u128, primary: bool)
        ensures
            deref_all(final(out)@) == deref_all(old(out)@) + locations_flagged(self.locations@, reg, primary),
    {
        let ghost start = deref_all(out@);
        let mut i: usize = 0;
        while i < self.locations.len()
            invariant
                i <= self.locations@.len(),
                deref_all(out@) == start + locations_flagged(self.locations@.subrange(0, i as int), reg, primary),
            decreases self.locations@.len() - i,
        {
            proof {
                let s1 = self.locations@.subrange(0, i + 1);
                assert(s1.drop_last() =~= self.locations@.subrange(0, i as int));
                assert(s1.last() == self.locations@[i as int]);
            }
            let loc = &self.locations[i];
            if loc.registration_id == reg && loc.is_primary == primary {
                proof {
                    lemma_deref_push(out@, loc);
                }
                out.push(loc);
                proof {
                    assert(deref_all(out@) =~= start + locations_flagged(self.locations@.subrange(0, i + 1), reg, primary));
                }
            }
            i = i + 1;
        }
        proof {
            assert(self.locations@.subrange(0, self.locations@.len() as int) =~= self.locations@);
        }
    }

    /// The locations of registration `reg`: the primary one first, then the
    /// others, oldest `created_at` first.
    pub fn list_locations_for_registration(&self, reg: u128) -> (r: Vec<&BusinessLocation>)
        ensures
            groups_by_age(
                deref_all(r@),
                locations_flagged(self.locations@, reg, true),
                locations_flagged(self.locations@, reg, false),
            ),
    {
        let mut primary: Vec<&BusinessLocation> = Vec::new();
        let mut others: Vec<&BusinessLocation> = Vec::new();
        proof {
            assert(deref_all(primary@) =~= Seq::<BusinessLocation>::empty());
            assert(deref_all(others@) =~= Seq::<BusinessLocation>::empty());
        }
        self.push_locations_flagged(&mut primary, reg, true);
        self.push_locations_flagged(&mut others, reg, false);
        proof {
            assert(Seq::<BusinessLocation>::empty() + locations_flagged(self.locations@, reg, true) =~= locations_flagged(
                self.locations@,
                reg,
                true,
            ));
            assert(Seq::<BusinessLocation>::empty() + locations_flagged(self.locations@, reg, false) =~= locations_flagged(
                self.locations@,
                reg,
                false,
            ));
        }
        join_by_age(primary, others)
    }

    /// The registrations of user `user`, newest `submitted_at` first.
    pub fn list_registrations_for_user(&self, user: u128) -> (r: Vec<&BusinessRegistration>)
        ensures
            deref_all(r@).to_multiset() == registrations_of(self.registrations@, user).to_multiset(),
            newest_first(deref_all(r@)),
    {
        let mut out: Vec<&BusinessRegistration> = Vec::new();
        let mut i: usize = 0;
        proof {
            assert(deref_all(out@) =~= Seq::<BusinessRegistration>::empty());
            assert(registrations_of(self.registrations@.subrange(0, 0), user) =~= Seq::<BusinessRegistration>::empty());
        }
        while i < self.registrations.len()
            invariant
                i <= self.registrations@.len(),
                deref_all(out@).to_multiset() == registrations_of(self.registrations@.subrange(0, i as int), user).to_multiset(),
                newest_first(deref_all(out@)),
            decreases self.registrations@.len() - i,
        {
            let ghost prefix = registrations_of(self.registrations@.subrange(0, i as int), user);
            proof {
                let s1 = self.registrations@.subrange(0, i + 1);
                assert(s1.drop_last() =~= self.registrations@.subrange(0, i as int));
                assert(s1.last() == self.registrations@[i as int]);
            }
            let x = &self.registrations[i];
            if x.user_id == user {
                let ghost d = deref_all(out@);
                let mut p: usize = 0;
                while p < out.len() && out[p].submitted_at >= x.submitted_at
                    invariant
                        p <= out@.len(),
                        d == deref_all(out@),
                        forall|q: int| 0 <= q < p ==> (#[trigger] d[q]).submitted_at >= x.submitted_at,
                    decreases out@.len() - p,
                {
                    p = p + 1;
                }
                proof {
                    assert forall|q: int| p <= q < d.len() implies (#[trigger] d[q]).submitted_at < x.submitted_at by {
                        assert(d[p as int].submitted_at < x.submitted_at);
                    }
                    lemma_deref_insert(out@, p as int, x);
                    vstd::seq_lib::to_multiset_insert(d, p as int, *x);
                    vstd::seq_lib::to_multiset_build(prefix, *x);
                }
                out.insert(p, x);
                proof {
                    let n = deref_all(out@);
                    assert(n == d.insert(p as int, *x));
                    assert forall|a: int, b: int| 0 <= a < b < n.len() implies n[a].submitted_at >= n[b].submitted_at by {
                        let oa = if a < p { a } else { a - 1 };
                        let ob = if b < p { b } else { b - 1 };
                        if a != p && b != p {
                            assert(n[a] == d[oa] && n[b] == d[ob]);
                        } else if a == p {
                            assert(n[b] == d[ob]);
                        } else {
                            assert(n[a] == d[oa]);
                        }
                    }
                }
            }
            i = i + 1;
        }
        proof {
            assert(self.registrations@.subrange(0, self.registrations@.len() as int) =~= self.registrations@);
        }
        out
    }

    /// The registration of user `user` with the latest `submitted_at`, if any.
    pub fn get_latest_registration_for_user(&self, user: u128) -> (r: Option<&BusinessRegistration>)
        ensures
            match r {
                Some(reg) => registrations_of(self.registrations@, user).contains(*reg) && forall|k: int|
                    0 <= k < registrations_of(self.registrations@, user).len() ==> (#[trigger] registrations_of(
                        self.registrations@,
                        user,
                    )[k]).submitted_at <= reg.submitted_at,
                None => registrations_of(self.registrations@, user).len() == 0,
            },
    {
        let all = self.list_registrations_for_user(user);
        let ghost mine = registrations_of(self.registrations@, user);
        let ghost d = deref_all(all@);
        proof {
            assert forall|k: int| 0 <= k < mine.len() implies d.contains(#[trigger] mine[k]) by {
                vstd::seq_lib::to_multiset_contains(mine, mine[k]);
                vstd::seq_lib::to_multiset_contains(d, mine[k]);
                assert(mine.contains(mine[k]));
            }
            if d.len() > 0 {
                vstd::seq_lib::to_multiset_contains(d, d[0]);
                vstd::seq_lib::to_multiset_contains(mine, d[0]);
                assert(d.contains(d[0]));
            } else if mine.len() > 0 {
                assert(d.contains(mine[0]));
            }
        }
        if all.len() > 0 {
            proof {
                assert(d[0] == *all@[0]);
            }
            Some(all[0])
        } else {
            None
        }
    }

    /// The registrations still awaiting a decision, oldest first, skipping
    /// `offset` of them and returning at most `limit`.
    pub fn list_pending_reviews(&self, limit: u64, offset: u64) -> (r: Vec<&BusinessRegistration>)
        ensures
            ({
                let all = awaiting(self.registrations@);
                let start = if offset <= all.len() { offset as int } else { all.len() as int };
                let end = if offset + limit <= all.len() { offset + limit } else { all.len() as int };
                deref_all(r@) == all.subrange(start, end)
            }),
    {
        let ghost regs = self.registrations@;
        let mut out: Vec<&BusinessRegistration> = Vec::new();
        let mut seen: usize = 0;
        let mut i: usize = 0;
        while i < self.registrations.len()
            invariant
                i <= regs.len(),
                regs == self.registrations@,
                seen as int == awaiting(regs.subrange(0, i as int)).len(),
                ({
                    let all = awaiting(regs.subrange(0, i as int));
                    let start = if offset <= all.len() { offset as int } else { all.len() as int };
                    let end = if offset + limit <= all.len() { offset + limit } else { all.len() as int };
                    deref_all(out@) == all.subrange(start, end)
                }),
            decreases regs.len() - i,
        {
            proof {
                let s1 = regs.subrange(0, i + 1);
                assert(s1.drop_last() =~= regs.subrange(0, i as int));
                assert(s1.last() == regs[i as int]);
                lemma_awaiting_len(regs.subrange(0, i as int));
                assert(seen <= i);
            }
            let reg = &self.registrations[i];
            if reg.status.awaits_review() {
                let ghost prev = awaiting(regs.subrange(0, i as int));
                if seen as u64 >= offset && (seen as u64) - offset < limit {
                    proof {
                        lemma_deref_push(out@, reg);
                    }
                    out.push(reg);
                }
                proof {
                    let all = prev.push(regs[i as int]);
                    let start = if offset <= all.len() { offset as int } else { all.len() as int };
                    let end = if offset + limit <= all.len() { offset + limit } else { all.len() as int };
                    assert(deref_all(out@) =~= all.subrange(start, end));
                }
                seen = seen + 1;
            }
            i = i + 1;
        }
        proof {
            assert(regs.subrange(0, regs.len() as int) =~= regs);
        }
        out
    }

    fn count_with_status(&self, st: BusinessVerificationStatus, since: Option<i64>) -> (r: usize)
        ensures
            r == count_status(self.registrations@, st, since),
    {
        let ghost regs = self.registrations@;
        let mut n: usize = 0;
        let mut i: usize = 0;
        while i < self.registrations.len()
            invariant
                i <= regs.len(),
                regs == self.registrations@,
                n == count_status(regs.subrange(0, i as int), st, since),
            decreases regs.len() - i,
        {
            proof {
                let s1 = regs.subrange(0, i + 1);
                assert(s1.drop_last() =~= regs.subrange(0, i as int));
                assert(s1.last() == regs[i as int]);
                lemma_count_bounded(regs.subrange(0, i as int), st, since);
            }
            let reg = &self.registrations[i];
            let recent = match since {
                Some(t) => reg.submitted_at >= t,
                None => true,
            };
            if reg.status == st && recent {
                n = n + 1;
            }
            i = i + 1;
        }
        proof {
            assert(regs.subrange(0, regs.len() as int) =~= regs);
        }
        n
    }

    /// Counts for the review dashboard at `now`: registrations pending and
    /// under review, and those approved or rejected among the ones submitted
    /// within the last day.
    pub fn get_review_stats(&self, now: i64) -> (r: ReviewStats)
        requires
            self.registrations@.len() <= i64::MAX,
        ensures
            r.pending == count_status(self.registrations@, BusinessVerificationStatus::Pending, None),
            r.under_review == count_status(self.registrations@, BusinessVerificationStatus::UnderReview, None),
            r.approved_today == count_status(
                self.registrations@,
                BusinessVerificationStatus::Approved,
                Some(day_before(now)),
            ),
            r.rejected_today == count_status(
                self.registrations@,
                BusinessVerificationStatus::Rejected,
                Some(day_before(now)),
            ),
    {
        let since = if now >= i64::MIN + DAY_MICROS {
            now - DAY_MICROS
        } else {
            i64::MIN
        };
        proof {
            lemma_count_bounded(self.registrations@, BusinessVerificationStatus::Pending, None);
            lemma_count_bounded(self.registrations@, BusinessVerificationStatus::UnderReview, None);
            lemma_count_bounded(self.registrations@, BusinessVerificationStatus::Approved, Some(since));
            lemma_count_bounded(self.registrations@, BusinessVerificationStatus::Rejected, Some(since));
        }
        let pending = self.count_with_status(BusinessVerificationStatus::Pending, None);
        let under_review = self.count_with_status(BusinessVerificationStatus::UnderReview, None);
        let approved = self.count_with_status(BusinessVerificationStatus::Approved, Some(since));
        let rejected = self.count_with_status(BusinessVerificationStatus::Rejected, Some(since));
        ReviewStats {
            pending: pending as i64,
            under_review: under_review as i64,
            approved_today: approved as i64,
            rejected_today: rejected as i64,
        }
    }

    /// The active administrators of location `loc`, oldest grant first.
    pub fn list_location_admins(&self, loc: u128) -> (r: Vec<&LocationAdmin>)
        ensures
            deref_all(r@) == active_admins_of(self.admins@, loc),
    {
        let mut out: Vec<&LocationAdmin> = Vec::new();
        let mut i: usize = 0;
        while i < self.admins.len()
            invariant
                i <= self.admins@.len(),
                deref_all(out@) == active_admins_of(self.admins@.subrange(0, i as int), loc),
            decreases self.admins@.len() - i,
        {
            proof {
                let s1 = self.admins@.subrange(0, i + 1);
                assert(s1.drop_last() =~= self.admins@.subrange(0, i as int));
                assert(s1.last() == self.admins@[i as int]);
            }
            if self.admins[i].location_id == loc && self.admins[i].is_active {
                proof {
                    lemma_deref_push(out@, &self.admins@[i as int]);
                }
                out.push(&self.admins[i]);
            }
            i = i + 1;
        }
        proof {
            assert(self.admins@.subrange(0, self.admins@.len() as int) =~= self.admins@);
        }
        out
    }
}

proof fn lemma_awaiting_len(regs: Seq<BusinessRegistration>)
    ensures
        awaiting(regs).len() <= regs.len(),
    decreases regs.len(),
{
    if regs.len() > 0 {
        lemma_awaiting_len(regs.drop_last());
    }
}

impl Store {
    /// The active companies owned by user `user`, newest first.
    pub fn list_companies_for_user(&self, user: u128) -> (r: Vec<&BusinessCompany>)
        ensures
            deref_all(r@) == companies_of(self.companies@, user).reverse(),
    {
        let mut out: Vec<&BusinessCompany> = Vec::new();
        let mut i: usize = self.companies.len();
        let ghost cs = self.companies@;
        proof {
            assert(cs.subrange(0, i as int) =~= cs);
            assert(deref_all(out@) =~= Seq::<BusinessCompany>::empty());
            assert(companies_of(cs, user).reverse() =~= Seq::<BusinessCompany>::empty() + companies_of(cs, user).reverse());
        }
        while i > 0
            invariant
                i <= cs.len(),
                cs == self.companies@,
                deref_all(out@) + companies_of(cs.subrange(0, i as int), user).reverse() == companies_of(cs, user).reverse(),
            decreases i,
        {
            proof {
                let s1 = cs.subrange(0, i as int);
                assert(s1.drop_last() =~= cs.subrange(0, i - 1));
                assert(s1.last() == cs[i - 1]);
            }
            i = i - 1;
            if self.companies[i].owner_user_id == user && self.companies[i].is_active {
                let ghost before = deref_all(out@);
                proof {
                    let prev = companies_of(cs.subrange(0, i as int), user);
                    assert(prev.push(cs[i as int]).reverse() =~= seq![cs[i as int]] + prev.reverse());
                    lemma_deref_push(out@, &self.companies@[i as int]);
                }
                out.push(&self.companies[i]);
                proof {
                    let prev = companies_of(cs.subrange(0, i as int), user);
                    assert(deref_all(out@) + prev.reverse() =~= before + (seq![cs[i as int]] + prev.reverse()));
                }
            }
        }
        proof {
            assert(cs.subrange(0, 0) =~= Seq::<BusinessCompany>::empty());
            assert(deref_all(out@) =~= deref_all(out@) + Seq::<BusinessCompany>::empty().reverse());
        }
        out
    }

    fn push_units_flagged<'a>(&'a self, out: &mut Vec<&'a BusinessUnit>, company: u128, primary: bool)
        ensures
            deref_all(final(out)@) == deref_all(old(out)@) + units_flagged(self.units@, company, primary),
    {
        let ghost start = deref_all(out@);
        let mut i: usize = 0;
        while i < self.units.len()
            invariant
                i <= self.units@.len(),
                deref_all(out@) == start + units_flagged(self.units@.subrange(0, i as int), company, primary),
            decreases self.units@.len() - i,
        {
            proof {
                let s1 = self.units@.subrange(0, i + 1);
                assert(s1.drop_last() =~= self.units@.subrange(0, i as int));
                assert(s1.last() == self.units@[i as int]);
            }
            let u = &self.units[i];
            if u.company_id == company && u.is_active && u.is_primary == primary {
                proof {
                    lemma_deref_push(out@, u);
                }
                out.push(u);
                proof {
                    assert(deref_all(out@) =~= start + units_flagged(self.units@.subrange(0, i + 1), company, primary));
                }
            }
            i = i + 1;
        }
        proof {
            assert(self.units@.subrange(0, self.units@.len() as int) =~= self.units@);
        }
    }

    /// The active units of company `company`: the primary one first, then the
    /// others in creation order.
    pub fn list_units_for_company(&self, company: u128) -> (r: Vec<&BusinessUnit>)
        ensures
            deref_all(r@) == units_flagged(self.units@, company, true) + units_flagged(self.units@, company, false),
    {
        let mut out: Vec<&BusinessUnit> = Vec::new();
        proof {
            assert(deref_all(out@) =~= Seq::<BusinessUnit>::empty());
        }
        self.push_units_flagged(&mut out, company, true);
        self.push_units_flagged(&mut out, company, false);
        proof {
            assert(Seq::<BusinessUnit>::empty() + units_flagged(self.units@, company, true) =~= units_flagged(
                self.units@,
                company,
                true,
            ));
        }
        out
    }
}

} // verus!
