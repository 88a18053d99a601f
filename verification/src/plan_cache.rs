//! The plan cache: plans by id, each with its insertion time. Every
//! access purges entries older than the time-to-live first, so an expired
//! plan is never returned.

use vstd::prelude::*;
use crate::model::{ExecutionPlan, PlanModel};

verus! {

/// An entry younger than the time-to-live at the given clock reading.
pub open spec fn entry_fresh(inserted_at: int, now: int, ttl: int) -> bool {
    now - inserted_at <= ttl
}

/// The entries still fresh at `now`.
pub open spec fn fresh_entries(es: Seq<(PlanModel, int)>, now: int, ttl: int) -> Seq<
    (PlanModel, int),
>
    decreases es,
{
    if es.len() == 0 {
        Seq::empty()
    } else {
        (if entry_fresh(es[0].1, now, ttl) {
            seq![es[0]]
        } else {
            Seq::empty()
        }) + fresh_entries(es.skip(1), now, ttl)
    }
}

/// The first plan stored under the id, if any.
pub open spec fn find_plan(es: Seq<(PlanModel, int)>, id: Seq<char>) -> Option<PlanModel>
    decreases es,
{
    if es.len() == 0 {
        Option::None
    } else if es[0].0.plan_id == id {
        Option::Some(es[0].0)
    } else {
        find_plan(es.skip(1), id)
    }
}

/// Plans by id with their insertion times and a time-to-live.
pub struct PlanCache {
    entries: Vec<(ExecutionPlan, u64)>,
    ttl_ms: u64,
}

impl PlanCache {
    /// The cached plans with their insertion times.
    pub closed spec fn entries(&self) -> Seq<(PlanModel, int)> {
        Seq::new(
            self.entries@.len(),
            |i: int| (self.entries@[i].0.deep_view(), self.entries@[i].1 as int),
        )
    }

    /// The time-to-live, in milliseconds.
    pub closed spec fn ttl(&self) -> int {
        self.ttl_ms as int
    }

    /// An empty cache with the given time-to-live.
    pub fn new(ttl_ms: u64) -> (r: Self)
        ensures
            r.entries() == Seq::<(PlanModel, int)>::empty(),
            r.ttl() == ttl_ms,
    {
        let r = PlanCache { entries: Vec::new(), ttl_ms };
        proof {
            assert(r.entries() =~= Seq::<(PlanModel, int)>::empty());
        }
        r
    }

    /// Drop every entry older than the time-to-live.
    pub fn purge(&mut self, now: u64)
        ensures
            final(self).entries() == fresh_entries(old(self).entries(), now as int, old(
                self,
            ).ttl()),
            final(self).ttl() == old(self).ttl(),
    {
        let ghost dv = self.entries();
        let mut kept: Vec<(ExecutionPlan, u64)> = Vec::new();
        let mut i: usize = 0;
        proof {
            assert(dv.take(0) =~= Seq::<(PlanModel, int)>::empty());
            assert(fresh_entries(dv.take(0), now as int, self.ttl()) =~= Seq::<
                (PlanModel, int),
            >::empty());
            assert(Seq::new(
                kept@.len(),
                |i: int| (kept@[i].0.deep_view(), kept@[i].1 as int),
            ) =~= Seq::<(PlanModel, int)>::empty());
        }
        while i < self.entries.len()
            invariant
                0 <= i <= self.entries@.len(),
                dv == self.entries(),
                dv.len() == self.entries@.len(),
                forall|k: int|
                    0 <= k < dv.len() ==> #[trigger] dv[k] == (
                    self.entries@[k].0.deep_view(),
                    self.entries@[k].1 as int,
                ),
                Seq::new(kept@.len(), |q: int| (kept@[q].0.deep_view(), kept@[q].1 as int))
                    == fresh_entries(dv.take(i as int), now as int, self.ttl()),
            decreases self.entries@.len() - i,
        {
            let ghost pre = Seq::new(
                kept@.len(),
                |q: int| (kept@[q].0.deep_view(), kept@[q].1 as int),
            );
            let inserted = self.entries[i].1;
            let fresh = now <= inserted || now - inserted <= self.ttl_ms;
            proof {
                assert(dv[i as int] == (self.entries@[i as int].0.deep_view(), self.entries@[
                    i as int
                ].1 as int));
                assert(fresh == entry_fresh(dv[i as int].1, now as int, self.ttl()));
            }
            if fresh {
                let p = self.entries[i].0.clone();
                kept.push((p, inserted));
                proof {
                    let nowv = Seq::new(
                        kept@.len(),
                        |q: int| (kept@[q].0.deep_view(), kept@[q].1 as int),
                    );
                    assert(nowv.len() == pre.len() + 1);
                    assert(nowv[pre.len() as int] == dv[i as int]);
                    assert(forall|q: int| 0 <= q < pre.len() ==> nowv[q] == pre[q]);
                }
            }
            proof {
                let nowv = Seq::new(
                    kept@.len(),
                    |q: int| (kept@[q].0.deep_view(), kept@[q].1 as int),
                );
                assert(dv.take(i + 1) =~= dv.take(i as int) + seq![dv[i as int]]);
                lemma_fresh_entries_concat(
                    dv.take(i as int),
                    seq![dv[i as int]],
                    now as int,
                    self.ttl(),
                );
                assert(seq![dv[i as int]].skip(1) =~= Seq::<(PlanModel, int)>::empty());
                assert(fresh_entries(Seq::<(PlanModel, int)>::empty(), now as int, self.ttl())
                    =~= Seq::<(PlanModel, int)>::empty());
                assert(nowv =~= fresh_entries(dv.take(i + 1), now as int, self.ttl()));
            }
            i = i + 1;
        }
        proof {
            assert(dv.take(dv.len() as int) =~= dv);
        }
        self.entries = kept;
    }

    /// Purge, then store the plan under its id at the given time.
    pub fn insert(&mut self, plan: ExecutionPlan, now: u64)
        ensures
            final(self).entries() == fresh_entries(old(self).entries(), now as int, old(
                self,
            ).ttl()).push((plan.deep_view(), now as int)),
            final(self).ttl() == old(self).ttl(),
    {
        self.purge(now);
        let ghost pre = self.entries();
        self.entries.push((plan, now));
        proof {
            assert(self.entries().len() == pre.len() + 1);
            assert(forall|q: int| 0 <= q < pre.len() ==> self.entries()[q] == pre[q]);
            assert(self.entries() =~= pre.push((
                self.entries@[pre.len() as int].0.deep_view(),
                now as int,
            )));
        }
    }

    /// Purge, then look up a plan by id. A plan comes back exactly when a
    /// fresh entry holds it; an expired plan is never returned.
    pub fn lookup(&mut self, plan_id: &String, now: u64) -> (r: Option<ExecutionPlan>)
        ensures
            final(self).entries() == fresh_entries(old(self).entries(), now as int, old(
                self,
            ).ttl()),
            final(self).ttl() == old(self).ttl(),
            match r {
                Option::Some(p) => find_plan(final(self).entries(), plan_id@) == Option::Some(
                    p.deep_view(),
                ),
                Option::None => find_plan(final(self).entries(), plan_id@) is None,
            },
    {
        self.purge(now);
        let ghost dv = self.entries();
        proof {
            assert(dv.skip(0) =~= dv);
        }
        let mut i: usize = 0;
        while i < self.entries.len()
            invariant
                0 <= i <= self.entries@.len(),
                dv == self.entries(),
                self.entries() == fresh_entries(old(self).entries(), now as int, old(self).ttl()),
                self.ttl() == old(self).ttl(),
                dv.len() == self.entries@.len(),
                forall|k: int|
                    0 <= k < dv.len() ==> #[trigger] dv[k] == (
                    self.entries@[k].0.deep_view(),
                    self.entries@[k].1 as int,
                ),
                find_plan(dv, plan_id@) == find_plan(dv.skip(i as int), plan_id@),
            decreases self.entries@.len() - i,
        {
            proof {
                assert(dv[i as int] == (self.entries@[i as int].0.deep_view(), self.entries@[
                    i as int
                ].1 as int));
                assert(dv.skip(i as int)[0] == dv[i as int]);
                assert(dv.skip(i as int).skip(1) =~= dv.skip(i + 1));
            }
            if self.entries[i].0.plan_id.eq(plan_id) {
                let p = self.entries[i].0.clone();
                proof {
                    assert(find_plan(dv.skip(i as int), plan_id@) == Option::Some(
                        dv[i as int].0,
                    ));
                }
                return Option::Some(p);
            }
            i = i + 1;
        }
        proof {
            assert(dv.skip(dv.len() as int) =~= Seq::<(PlanModel, int)>::empty());
        }
        Option::None
    }
}

/// A plan appended under an id no cached entry carries is found under
/// that id.
pub proof fn lemma_find_plan_pushed(es: Seq<(PlanModel, int)>, p: PlanModel, t: int)
    requires
        forall|k: int| 0 <= k < es.len() ==> (#[trigger] es[k]).0.plan_id != p.plan_id,
    ensures
        find_plan(es.push((p, t)), p.plan_id) == Option::Some(p),
    decreases es.len(),
{
    if es.len() == 0 {
        assert(es.push((p, t))[0] == (p, t));
    } else {
        assert(es.push((p, t))[0] == es[0]);
        assert(es.push((p, t)).skip(1) =~= es.skip(1).push((p, t)));
        assert(forall|k: int| 0 <= k < es.skip(1).len() ==> es.skip(1)[k] == es[k + 1]);
        lemma_find_plan_pushed(es.skip(1), p, t);
    }
}

proof fn lemma_fresh_entries_concat(
    a: Seq<(PlanModel, int)>,
    b: Seq<(PlanModel, int)>,
    now: int,
    ttl: int,
)
    ensures
        fresh_entries(a + b, now, ttl) == fresh_entries(a, now, ttl) + fresh_entries(b, now, ttl),
    decreases a.len(),
{
    if a.len() == 0 {
        assert(a + b =~= b);
        assert(fresh_entries(a, now, ttl) + fresh_entries(b, now, ttl) =~= fresh_entries(
            b,
            now,
            ttl,
        ));
    } else {
        assert((a + b).skip(1) =~= a.skip(1) + b);
        lemma_fresh_entries_concat(a.skip(1), b, now, ttl);
        assert(fresh_entries(a + b, now, ttl) =~= fresh_entries(a, now, ttl) + fresh_entries(
            b,
            now,
            ttl,
        ));
    }
}

} // verus!
