//! The subscription scheduler: a registry of per-subscription streams
//! workers with the same lifecycle shape as the metadata manager.
//!
//! Boot loads every subscription together with the clusters they reference;
//! a subscription whose cluster is missing is skipped.  Each worker honours
//! its own shutdown latch, and `stop` has the manager's semantics: signal
//! every latch, then wait for every acknowledgment.

use vstd::prelude::*;
use crate::cluster::Cluster;
use crate::idmap::IdMap;
use crate::shutdown::{Latch, ShutdownState, begin_spec, spec_is_shutdown};
use crate::subscription::Subscription;

verus! {

/// Mathematical content of a [`WorkerContext`].
pub struct WorkerContextV {
    pub latch: ShutdownState,
    pub cluster_id: i64,
}

/// The per-subscription record the scheduler keeps while a streams worker
/// is live.
pub struct WorkerContext {
    /// The latch the worker honours.
    pub latch: Latch,
    /// The cluster the worker consumes from.
    pub cluster_id: i64,
}

impl View for WorkerContext {
    type V = WorkerContextV;

    open spec fn view(&self) -> WorkerContextV {
        WorkerContextV { latch: self.latch@, cluster_id: self.cluster_id }
    }
}

/// Some cluster of the listing carries this id.
pub open spec fn spec_has_cluster(cs: Seq<Cluster>, id: i64) -> bool {
    exists|i: int| 0 <= i < cs.len() && (#[trigger] cs[i]).id == id
}

/// The state after scheduling one subscription against a cluster listing: a
/// worker is installed when the referenced cluster exists and the
/// subscription is not already scheduled; otherwise nothing changes.
pub open spec fn spec_schedule(
    m: Map<i64, WorkerContextV>,
    s: Subscription,
    cs: Seq<Cluster>,
) -> Map<i64, WorkerContextV> {
    if spec_has_cluster(cs, s.cluster_id) && !m.dom().contains(s.id) {
        m.insert(s.id, WorkerContextV { latch: ShutdownState::NotStarted, cluster_id: s.cluster_id })
    } else {
        m
    }
}

/// The state after scheduling every subscription of a listing in order.
pub open spec fn spec_schedule_all(
    m: Map<i64, WorkerContextV>,
    subs: Seq<Subscription>,
    cs: Seq<Cluster>,
) -> Map<i64, WorkerContextV>
    decreases subs.len(),
{
    if subs.len() == 0 {
        m
    } else {
        spec_schedule(spec_schedule_all(m, subs.drop_last(), cs), subs.last(), cs)
    }
}

/// The state after shutdown is signalled to every live worker.
pub open spec fn spec_begin_all_workers(m: Map<i64, WorkerContextV>) -> Map<i64, WorkerContextV> {
    m.map_values(|c: WorkerContextV| WorkerContextV { latch: begin_spec(c.latch), ..c })
}

/// The state after the worker of `id` acknowledges shutdown.
pub open spec fn spec_acknowledge_worker(
    m: Map<i64, WorkerContextV>,
    id: i64,
) -> Map<i64, WorkerContextV> {
    if m.dom().contains(id) {
        m.insert(id, WorkerContextV { latch: ShutdownState::Complete, ..m[id] })
    } else {
        m
    }
}

/// The state after the workers of `ids` acknowledge shutdown, in order.
pub open spec fn spec_acknowledge_workers(
    m: Map<i64, WorkerContextV>,
    ids: Seq<i64>,
) -> Map<i64, WorkerContextV>
    decreases ids.len(),
{
    if ids.len() == 0 {
        m
    } else {
        spec_acknowledge_workers(spec_acknowledge_worker(m, ids[0]), ids.drop_first())
    }
}

/// The registry of per-subscription streams workers.
pub struct Scheduler {
    workers: IdMap<WorkerContext>,
}

impl View for Scheduler {
    type V = Map<i64, WorkerContextV>;

    closed spec fn view(&self) -> Map<i64, WorkerContextV> {
        self.workers@.map_values(|c: WorkerContext| c@)
    }
}

impl Scheduler {
    /// An empty scheduler: no workers.
    pub fn new() -> (r: Scheduler)
        ensures
            r@ == Map::<i64, WorkerContextV>::empty(),
    {
        let r = Scheduler { workers: IdMap::new() };
        proof {
            assert(r@ =~= Map::<i64, WorkerContextV>::empty());
        }
        r
    }

    /// Whether the listing holds a cluster with this id.
    fn find_cluster(clusters: &Vec<Cluster>, id: i64) -> (r: bool)
        ensures
            r == spec_has_cluster(clusters@, id),
    {
        let n = clusters.len();
        let mut i: usize = 0;
        while i < n
            invariant
                i <= n,
                n == clusters@.len(),
                forall|j: int| 0 <= j < i ==> (#[trigger] clusters@[j]).id != id,
            decreases n - i,
        {
            if clusters[i].id == id {
                return true;
            }
            i = i + 1;
        }
        false
    }

    /// Schedule every subscription of a boot listing against the clusters
    /// it references.  A subscription whose cluster is missing is skipped;
    /// the rest get a worker with an unfired latch.  Reports the workers to
    /// spawn as `(subscription id, cluster id)` pairs.
    pub fn start(&mut self, subs: &Vec<Subscription>, clusters: &Vec<Cluster>) -> (specs: Vec<
        (i64, i64),
    >)
        ensures
            final(self)@ == spec_schedule_all(old(self)@, subs@, clusters@),
            forall|j: int|
                0 <= j < specs@.len() ==> final(self)@.dom().contains((#[trigger] specs@[j]).0),
    {
        let n = subs.len();
        let mut specs: Vec<(i64, i64)> = Vec::new();
        let mut i: usize = 0;
        while i < n
            invariant
                i <= n,
                n == subs@.len(),
                self@ == spec_schedule_all(old(self)@, subs@.take(i as int), clusters@),
                forall|j: int|
                    0 <= j < specs@.len() ==> self@.dom().contains((#[trigger] specs@[j]).0),
            decreases n - i,
        {
            let s = &subs[i];
            let ghost prev = self@;
            if Self::find_cluster(clusters, s.cluster_id) && !self.workers.contains_key(s.id) {
                proof {
                    assert(!prev.dom().contains(s.id));
                }
                self.workers.insert(
                    s.id,
                    WorkerContext { latch: Latch::new(), cluster_id: s.cluster_id },
                );
                specs.push((s.id, s.cluster_id));
                proof {
                    assert(self@ =~= spec_schedule(prev, subs@[i as int], clusters@));
                }
            } else {
                proof {
                    assert(self@ =~= spec_schedule(prev, subs@[i as int], clusters@));
                }
            }
            proof {
                assert(subs@.take(i + 1).drop_last() =~= subs@.take(i as int));
                assert(subs@.take(i + 1).last() == subs@[i as int]);
            }
            i = i + 1;
        }
        proof {
            assert(subs@.take(n as int) =~= subs@);
        }
        specs
    }

    /// Whether the subscription has a live worker.
    pub fn is_scheduled(&self, id: i64) -> (r: bool)
        ensures
            r == self@.dom().contains(id),
    {
        self.workers.contains_key(id)
    }

    /// Remove the worker of `id`, if one is live, with shutdown signalled
    /// on its latch; the caller releases the returned context's waiters.
    pub fn remove(&mut self, id: i64) -> (r: Option<WorkerContext>)
        ensures
            final(self)@ == old(self)@.remove(id),
            r is Some <==> old(self)@.dom().contains(id),
            r matches Some(ctx) ==> ctx@.latch == begin_spec(old(self)@[id].latch)
                && spec_is_shutdown(ctx@.latch),
    {
        let removed = self.workers.remove(id);
        proof {
            assert(final(self)@ =~= old(self)@.remove(id));
        }
        match removed {
            Some(mut ctx) => {
                ctx.latch.begin();
                Some(ctx)
            },
            None => None,
        }
    }

    /// Signal shutdown to every live worker and report their ids; the
    /// caller then waits for each acknowledgment.
    pub fn begin_shutdown(&mut self) -> (ids: Vec<i64>)
        ensures
            final(self)@ == spec_begin_all_workers(old(self)@),
            ids@.no_duplicates(),
            forall|k: i64| old(self)@.dom().contains(k) <==> ids@.contains(k),
    {
        let ids = self.workers.keys();
        let n = ids.len();
        let mut i: usize = 0;
        while i < n
            invariant
                i <= n,
                n == ids@.len(),
                ids@.no_duplicates(),
                forall|k: i64| old(self)@.dom().contains(k) <==> ids@.contains(k),
                self@.dom() == old(self)@.dom(),
                forall|k: i64|
                    self@.dom().contains(k) ==> #[trigger] self@[k] == (if ids@.take(
                        i as int,
                    ).contains(k) {
                        WorkerContextV { latch: begin_spec(old(self)@[k].latch), ..old(self)@[k] }
                    } else {
                        old(self)@[k]
                    }),
            decreases n - i,
        {
            let id = ids[i];
            proof {
                assert(ids@.contains(ids@[i as int]));
                assert(!ids@.take(i as int).contains(id)) by {
                    if ids@.take(i as int).contains(id) {
                        let j = choose|j: int|
                            0 <= j < ids@.take(i as int).len() && (#[trigger] ids@.take(
                                i as int,
                            )[j]) == id;
                        assert(ids@[j] == ids@[i as int]);
                    }
                }
            }
            let ghost prev = self@;
            let ctx = self.workers.remove(id);
            match ctx {
                Some(mut c) => {
                    proof {
                        assert(c@ == prev[id]);
                    }
                    c.latch.begin();
                    self.workers.insert(id, c);
                },
                None => {
                    proof {
                        assert(prev.dom().contains(id));
                        assert(false);
                    }
                },
            }
            proof {
                assert forall|k: i64|
                    ids@.take(i + 1).contains(k) <==> (ids@.take(i as int).contains(k) || k
                        == ids@[i as int]) by {
                    if ids@.take(i + 1).contains(k) {
                        let j = choose|j: int|
                            0 <= j < ids@.take(i + 1).len() && (#[trigger] ids@.take(i + 1)[j])
                                == k;
                        if j < i {
                            assert(ids@.take(i as int)[j] == k);
                            assert(ids@.take(i as int).contains(k));
                        } else {
                            assert(k == ids@[i as int]);
                        }
                    }
                    if ids@.take(i as int).contains(k) {
                        let j = choose|j: int|
                            0 <= j < ids@.take(i as int).len() && (#[trigger] ids@.take(
                                i as int,
                            )[j]) == k;
                        assert(ids@.take(i + 1)[j] == k);
                        assert(ids@.take(i + 1).contains(k));
                    }
                    if k == ids@[i as int] {
                        assert(ids@.take(i + 1)[i as int] == k);
                        assert(ids@.take(i + 1).contains(k));
                    }
                }
                assert(self@.dom() =~= prev.dom());
                assert forall|k: i64| self@.dom().contains(k) implies #[trigger] self@[k] == (
                if ids@.take(i + 1).contains(k) {
                    WorkerContextV { latch: begin_spec(old(self)@[k].latch), ..old(self)@[k] }
                } else {
                    old(self)@[k]
                }) by {
                    if k == id {
                        assert(prev[id] == old(self)@[id]);
                    } else {
                        assert(self@[k] == prev[k]);
                    }
                }
            }
            i = i + 1;
        }
        proof {
            assert(forall|k: i64| ids@.take(n as int).contains(k) <==> ids@.contains(k)) by {
                assert(ids@.take(n as int) =~= ids@);
            }
            assert(self@ =~= spec_begin_all_workers(old(self)@));
        }
        ids
    }

    /// Record that the worker of `id` has observed shutdown and finished.
    pub fn acknowledge_shutdown(&mut self, id: i64)
        requires
            old(self)@.dom().contains(id) ==> spec_is_shutdown(old(self)@[id].latch),
        ensures
            final(self)@ == spec_acknowledge_worker(old(self)@, id),
    {
        let ctx = self.workers.remove(id);
        match ctx {
            Some(mut c) => {
                c.latch.complete();
                self.workers.insert(id, c);
                proof {
                    assert(final(self)@ =~= spec_acknowledge_worker(old(self)@, id));
                }
            },
            None => {
                proof {
                    assert(final(self)@ =~= old(self)@);
                }
            },
        }
    }

    /// Whether every live worker's latch is complete.
    pub fn all_latches_complete(&self) -> (r: bool)
        ensures
            r == forall|k: i64|
                self@.dom().contains(k) ==> (#[trigger] self@[k].latch) is Complete,
    {
        let ids = self.workers.keys();
        let n = ids.len();
        let mut i: usize = 0;
        while i < n
            invariant
                i <= n,
                n == ids@.len(),
                forall|k: i64| self@.dom().contains(k) <==> ids@.contains(k),
                forall|j: int| 0 <= j < i ==> self@[#[trigger] ids@[j]].latch is Complete,
            decreases n - i,
        {
            proof {
                assert(ids@.contains(ids@[i as int]));
            }
            match self.workers.get(ids[i]) {
                Some(c) => {
                    if !matches!(c.latch.state(), ShutdownState::Complete) {
                        proof {
                            assert(self@.dom().contains(ids@[i as int]));
                            assert(!(self@[ids@[i as int]].latch is Complete));
                        }
                        return false;
                    }
                },
                None => {
                    proof {
                        assert(false);
                    }
                },
            }
            i = i + 1;
        }
        proof {
            assert forall|k: i64| self@.dom().contains(k) implies (#[trigger] self@[k].latch)
                is Complete by {
                assert(ids@.contains(k));
                let j = choose|j: int| 0 <= j < ids@.len() && ids@[j] == k;
                assert(self@[ids@[j]].latch is Complete);
            }
        }
        true
    }
}

/// A subscription is scheduled after boot exactly when it was already
/// scheduled or its cluster is in the listing.
pub proof fn lemma_schedule_all_covers(
    m: Map<i64, WorkerContextV>,
    subs: Seq<Subscription>,
    cs: Seq<Cluster>,
    j: int,
)
    requires
        0 <= j < subs.len(),
        spec_has_cluster(cs, subs[j].cluster_id),
    ensures
        spec_schedule_all(m, subs, cs).dom().contains(subs[j].id),
    decreases subs.len(),
{
    if j == subs.len() - 1 {
        assert(subs.last() == subs[j]);
    } else {
        assert(subs.drop_last()[j] == subs[j]);
        lemma_schedule_all_covers(m, subs.drop_last(), cs, j);
    }
}

/// Acknowledgments only complete latches; ids are kept.
proof fn lemma_acknowledge_workers_facts(m: Map<i64, WorkerContextV>, ids: Seq<i64>)
    ensures
        ({
            let r = spec_acknowledge_workers(m, ids);
            &&& r.dom() == m.dom()
            &&& forall|k: i64|
                r.dom().contains(k) ==> #[trigger] r[k] == (if ids.contains(k) {
                    WorkerContextV { latch: ShutdownState::Complete, ..m[k] }
                } else {
                    m[k]
                })
        }),
    decreases ids.len(),
{
    if ids.len() == 0 {
        assert(forall|k: i64| !ids.contains(k));
    } else {
        let m1 = spec_acknowledge_worker(m, ids[0]);
        assert(m1.dom() =~= m.dom());
        lemma_acknowledge_workers_facts(m1, ids.drop_first());
        let r = spec_acknowledge_workers(m, ids);
        assert forall|k: i64| r.dom().contains(k) implies #[trigger] r[k] == (if ids.contains(k) {
            WorkerContextV { latch: ShutdownState::Complete, ..m[k] }
        } else {
            m[k]
        }) by {
            assert(ids.contains(k) <==> (k == ids[0] || ids.drop_first().contains(k))) by {
                if ids.contains(k) {
                    let j = choose|j: int| 0 <= j < ids.len() && ids[j] == k;
                    if j > 0 {
                        assert(ids.drop_first()[j - 1] == k);
                        assert(ids.drop_first().contains(k));
                    }
                }
                if ids.drop_first().contains(k) {
                    let j = choose|j: int|
                        0 <= j < ids.drop_first().len() && (#[trigger] ids.drop_first()[j]) == k;
                    assert(ids[j + 1] == k);
                }
                if k == ids[0] {
                    assert(ids.contains(k));
                }
            }
        }
    }
}

/// The scheduler's shutdown protocol runs to quiescence, exactly as the
/// manager's: after shutdown is signalled to every worker and each live
/// worker has acknowledged, every latch is `Complete`.
pub proof fn lemma_scheduler_stop_protocol(m: Map<i64, WorkerContextV>, ids: Seq<i64>)
    requires
        forall|k: i64| m.dom().contains(k) ==> ids.contains(k),
    ensures
        ({
            let r = spec_acknowledge_workers(spec_begin_all_workers(m), ids);
            &&& r.dom() == m.dom()
            &&& forall|k: i64| r.dom().contains(k) ==> (#[trigger] r[k].latch) is Complete
        }),
{
    let begun = spec_begin_all_workers(m);
    assert(begun.dom() =~= m.dom());
    lemma_acknowledge_workers_facts(begun, ids);
}

} // verus!
