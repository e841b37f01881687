//! The metadata manager: a lifecycle-managed registry of per-cluster
//! pollers and a cache of typed metadata entries.
//!
//! The manager is the decision core of the service.  Registration, removal,
//! poll-result application and shutdown are functions of the state alone;
//! the runtime around the library drives the timers, the fetches and the
//! waits, and hands every outcome back through these operations.

use vstd::prelude::*;
use crate::cluster::Cluster;
use crate::config::{spec_poll_interval_ms, poll_interval_ms};
use crate::idmap::IdMap;
use crate::metadata::{ClusterMetadata, ClusterMetadataV};
use crate::shutdown::{Latch, ShutdownState, begin_spec, spec_is_shutdown};
use crate::strings::{int_digits, render_i64};

verus! {

/// Mathematical content of a [`CachedMetadataEntry`].
pub enum CachedMetadataEntryV {
    Unknown,
    Processing,
    Meta(ClusterMetadataV),
    Failed(Seq<char>),
}

/// A typed cache entry for one cluster.  An entry is `Processing` from the
/// moment a poller is registered, `Meta` after every successful poll and
/// `Failed` after every failed one; `Unknown` is the default read for an
/// unregistered id and is never stored.
pub enum CachedMetadataEntry {
    Unknown,
    Processing,
    Meta(ClusterMetadata),
    Failed(String),
}

impl View for CachedMetadataEntry {
    type V = CachedMetadataEntryV;

    open spec fn view(&self) -> CachedMetadataEntryV {
        match self {
            CachedMetadataEntry::Unknown => CachedMetadataEntryV::Unknown,
            CachedMetadataEntry::Processing => CachedMetadataEntryV::Processing,
            CachedMetadataEntry::Meta(m) => CachedMetadataEntryV::Meta(m@),
            CachedMetadataEntry::Failed(r) => CachedMetadataEntryV::Failed(r@),
        }
    }
}

impl Clone for CachedMetadataEntry {
    /// A copy with the same content as the original.
    fn clone(&self) -> (r: CachedMetadataEntry)
        ensures
            r@ == self@,
    {
        match self {
            CachedMetadataEntry::Unknown => CachedMetadataEntry::Unknown,
            CachedMetadataEntry::Processing => CachedMetadataEntry::Processing,
            CachedMetadataEntry::Meta(m) => CachedMetadataEntry::Meta(m.clone()),
            CachedMetadataEntry::Failed(r) => CachedMetadataEntry::Failed(r.clone()),
        }
    }
}

/// Mathematical content of a [`ConsumerContext`].
pub struct ConsumerContextV {
    pub latch: ShutdownState,
    pub interval_ms: u64,
}

/// The per-cluster record the manager keeps while a poller is live: the
/// poller's shutdown latch and its cadence.  The fetching capability itself
/// lives with the poller; the context is what the control path and the
/// poller agree on.
pub struct ConsumerContext {
    /// The latch the poller honours.
    pub latch: Latch,
    /// The poll cadence, resolved from the cluster's configuration at
    /// registration.
    pub interval_ms: u64,
}

impl View for ConsumerContext {
    type V = ConsumerContextV;

    open spec fn view(&self) -> ConsumerContextV {
        ConsumerContextV { latch: self.latch@, interval_ms: self.interval_ms }
    }
}

/// Mathematical content of a [`MetadataManager`].
pub struct MetadataManagerV {
    pub contexts: Map<i64, ConsumerContextV>,
    pub cache: Map<i64, CachedMetadataEntryV>,
}

impl MetadataManagerV {
    /// The manager's standing invariant: contexts and cache entries exist
    /// for exactly the same ids, and a stored entry is never `Unknown` —
    /// every live context shows `Processing`, `Meta` or `Failed`.
    pub open spec fn consistent(self) -> bool {
        &&& self.cache.dom() == self.contexts.dom()
        &&& forall|id: i64|
            self.cache.dom().contains(id) ==> !(#[trigger] self.cache[id] is Unknown)
    }
}

/// The state after registering `id` with cadence `interval_ms`: a no-op on
/// a registered id; otherwise a fresh context with an unfired latch and a
/// `Processing` cache entry.
pub open spec fn spec_register(m: MetadataManagerV, id: i64, interval_ms: u64) -> MetadataManagerV {
    if m.contexts.dom().contains(id) {
        m
    } else {
        MetadataManagerV {
            contexts: m.contexts.insert(
                id,
                ConsumerContextV { latch: ShutdownState::NotStarted, interval_ms },
            ),
            cache: m.cache.insert(id, CachedMetadataEntryV::Processing),
        }
    }
}

/// The state after removing `id`: both the context and the cache entry are
/// gone; reads of the id then see `Unknown`.
pub open spec fn spec_remove(m: MetadataManagerV, id: i64) -> MetadataManagerV {
    MetadataManagerV { contexts: m.contexts.remove(id), cache: m.cache.remove(id) }
}

/// The text stored with a failed poll: it names the cluster and carries
/// the fetch error's description.
pub open spec fn failed_message(id: i64, reason: Seq<char>) -> Seq<char> {
    "Error: Failed to fetch metadata for cluster "@ + int_digits(id as int) + " - "@ + reason
}

/// The state after a poller hands in a fetch outcome for `id`: the cache
/// entry becomes `Meta` or `Failed` while the context is live, and the
/// outcome is dropped when the id has been removed meanwhile.
pub open spec fn spec_apply_fetch(
    m: MetadataManagerV,
    id: i64,
    outcome: Result<ClusterMetadataV, Seq<char>>,
) -> MetadataManagerV {
    if m.contexts.dom().contains(id) {
        MetadataManagerV {
            contexts: m.contexts,
            cache: m.cache.insert(
                id,
                match outcome {
                    Ok(v) => CachedMetadataEntryV::Meta(v),
                    Err(reason) => CachedMetadataEntryV::Failed(failed_message(id, reason)),
                },
            ),
        }
    } else {
        m
    }
}

/// The state after shutdown is signalled to every live poller.
pub open spec fn spec_begin_all(m: MetadataManagerV) -> MetadataManagerV {
    MetadataManagerV {
        contexts: m.contexts.map_values(
            |c: ConsumerContextV| ConsumerContextV { latch: begin_spec(c.latch), ..c },
        ),
        cache: m.cache,
    }
}

/// The state after the poller of `id` acknowledges shutdown: its latch is
/// complete.
pub open spec fn spec_acknowledge(m: MetadataManagerV, id: i64) -> MetadataManagerV {
    if m.contexts.dom().contains(id) {
        MetadataManagerV {
            contexts: m.contexts.insert(
                id,
                ConsumerContextV { latch: ShutdownState::Complete, ..m.contexts[id] },
            ),
            cache: m.cache,
        }
    } else {
        m
    }
}

/// What a `register` call reports.
pub enum RegisterOutcome {
    /// A fresh context was installed; a poller with this cadence must be
    /// spawned for the id.
    Registered { interval_ms: u64 },
    /// The id already had a live context; nothing changed.
    AlreadyRegistered,
}

/// The registry of per-cluster pollers and the cache of their most recent
/// results.  Both maps are kept consistent: they always hold the same ids.
pub struct MetadataManager {
    contexts: IdMap<ConsumerContext>,
    cache: IdMap<CachedMetadataEntry>,
}

impl View for MetadataManager {
    type V = MetadataManagerV;

    closed spec fn view(&self) -> MetadataManagerV {
        MetadataManagerV {
            contexts: self.contexts@.map_values(|c: ConsumerContext| c@),
            cache: self.cache@.map_values(|e: CachedMetadataEntry| e@),
        }
    }
}

impl MetadataManager {
    /// The standing invariant, at the level of the state's content.
    pub open spec fn consistent(&self) -> bool {
        self@.consistent()
    }

    /// An empty manager: no contexts, no cache entries.
    pub fn new() -> (r: MetadataManager)
        ensures
            r.consistent(),
            r@.contexts == Map::<i64, ConsumerContextV>::empty(),
            r@.cache == Map::<i64, CachedMetadataEntryV>::empty(),
    {
        let r = MetadataManager { contexts: IdMap::new(), cache: IdMap::new() };
        proof {
            assert(r@.contexts =~= Map::<i64, ConsumerContextV>::empty());
            assert(r@.cache =~= Map::<i64, CachedMetadataEntryV>::empty());
        }
        r
    }

    /// Register a poller for `cluster`.  Idempotent: an id with a live
    /// context is left untouched and the call reports success.  Otherwise a
    /// fresh context is installed, the cache entry is set to `Processing`,
    /// and the caller must spawn the poller at the returned cadence.
    ///
    /// The caller builds the fetching capability before registering; when
    /// that construction fails, this is never called and the state is
    /// untouched, as the failure model demands.
    pub fn register(&mut self, cluster: &Cluster) -> (r: RegisterOutcome)
        requires
            old(self).consistent(),
        ensures
            final(self).consistent(),
            final(self)@ == spec_register(
                old(self)@,
                cluster.id,
                spec_poll_interval_ms(cluster.config@),
            ),
            r matches RegisterOutcome::AlreadyRegistered <==> old(self)@.contexts.dom().contains(
                cluster.id,
            ),
            r matches RegisterOutcome::Registered { interval_ms } ==> interval_ms
                == spec_poll_interval_ms(cluster.config@),
    {
        if self.contexts.contains_key(cluster.id) {
            proof {
                assert(self@.contexts.dom().contains(cluster.id));
            }
            return RegisterOutcome::AlreadyRegistered;
        }
        proof {
            assert(!self@.contexts.dom().contains(cluster.id));
        }
        let interval_ms = poll_interval_ms(&cluster.config);
        let context = ConsumerContext { latch: Latch::new(), interval_ms };
        self.contexts.insert(cluster.id, context);
        self.cache.insert(cluster.id, CachedMetadataEntry::Processing);
        proof {
            assert(final(self)@.contexts =~= spec_register(
                old(self)@,
                cluster.id,
                spec_poll_interval_ms(cluster.config@),
            ).contexts);
            assert(final(self)@.cache =~= spec_register(
                old(self)@,
                cluster.id,
                spec_poll_interval_ms(cluster.config@),
            ).cache);
            assert(final(self)@.cache.dom() =~= final(self)@.contexts.dom());
        }
        RegisterOutcome::Registered { interval_ms }
    }

    /// Remove the poller of `id`, if one is live: its context leaves the
    /// registry with shutdown already signalled on its latch, and the cache
    /// entry disappears with it.  Removal does not wait for the poller; the
    /// caller releases the returned context's waiters.  A second removal of
    /// the same id is a no-op.
    pub fn remove(&mut self, id: i64) -> (r: Option<ConsumerContext>)
        requires
            old(self).consistent(),
        ensures
            final(self).consistent(),
            final(self)@ == spec_remove(old(self)@, id),
            r is Some <==> old(self)@.contexts.dom().contains(id),
            r matches Some(ctx) ==> {
                &&& ctx@.latch == begin_spec(old(self)@.contexts[id].latch)
                &&& spec_is_shutdown(ctx@.latch)
                &&& ctx@.interval_ms == old(self)@.contexts[id].interval_ms
            },
    {
        let removed = self.contexts.remove(id);
        let _ = self.cache.remove(id);
        proof {
            assert(final(self)@.contexts =~= old(self)@.contexts.remove(id));
            assert(final(self)@.cache =~= old(self)@.cache.remove(id));
            assert(final(self)@.cache.dom() =~= final(self)@.contexts.dom());
        }
        match removed {
            Some(mut ctx) => {
                ctx.latch.begin();
                Some(ctx)
            },
            None => None,
        }
    }

    /// The cached entry of `id`, if one exists; absent means the id is not
    /// registered and reads as `Unknown`.
    pub fn get(&self, id: i64) -> (r: Option<CachedMetadataEntry>)
        ensures
            match r {
                Some(e) => self@.cache.dom().contains(id) && e@ == self@.cache[id],
                None => !self@.cache.dom().contains(id),
            },
    {
        match self.cache.get(id) {
            Some(e) => Some(e.clone()),
            None => None,
        }
    }

    /// Record the outcome of one poll of `id`.  While the context is live
    /// the cache entry becomes `Meta` on success and `Failed` with the
    /// formatted reason on failure; an outcome arriving after removal is
    /// dropped, so a removed id never regains an entry.
    pub fn apply_fetch(&mut self, id: i64, outcome: Result<ClusterMetadata, String>)
        requires
            old(self).consistent(),
        ensures
            final(self).consistent(),
            final(self)@ == spec_apply_fetch(
                old(self)@,
                id,
                match outcome {
                    Ok(m) => Ok(m@),
                    Err(ref reason) => Err(reason@),
                },
            ),
    {
        let ghost o: Result<ClusterMetadataV, Seq<char>> = match outcome {
            Ok(ref m) => Ok(m@),
            Err(ref reason) => Err(reason@),
        };
        if !self.contexts.contains_key(id) {
            return ;
        }
        let entry = match outcome {
            Ok(m) => CachedMetadataEntry::Meta(m),
            Err(reason) => {
                let rendered = render_i64(id);
                let mut msg = String::new();
                msg.append("Error: Failed to fetch metadata for cluster ");
                msg.append(rendered.as_str());
                msg.append(" - ");
                msg.append(reason.as_str());
                proof {
                    assert(msg@ =~= failed_message(id, reason@));
                }
                CachedMetadataEntry::Failed(msg)
            },
        };
        self.cache.insert(id, entry);
        proof {
            assert(final(self)@.cache =~= spec_apply_fetch(old(self)@, id, o).cache);
            assert(final(self)@.contexts =~= spec_apply_fetch(old(self)@, id, o).contexts);
            assert(final(self)@.cache.dom() =~= final(self)@.contexts.dom());
        }
    }

    /// Signal shutdown to every live poller and report their ids; the
    /// caller then waits for each acknowledgment.  No context or cache
    /// entry is removed.
    pub fn begin_shutdown(&mut self) -> (ids: Vec<i64>)
        requires
            old(self).consistent(),
        ensures
            final(self).consistent(),
            final(self)@ == spec_begin_all(old(self)@),
            ids@.no_duplicates(),
            forall|k: i64| old(self)@.contexts.dom().contains(k) <==> ids@.contains(k),
    {
        let ids = self.contexts.keys();
        let n = ids.len();
        let mut i: usize = 0;
        while i < n
            invariant
                i <= n,
                n == ids@.len(),
                ids@.no_duplicates(),
                forall|k: i64| old(self)@.contexts.dom().contains(k) <==> ids@.contains(k),
                self@.cache == old(self)@.cache,
                self@.contexts.dom() == old(self)@.contexts.dom(),
                forall|k: i64|
                    self@.contexts.dom().contains(k) ==> #[trigger] self@.contexts[k] == (
                    if ids@.take(i as int).contains(k) {
                        ConsumerContextV {
                            latch: begin_spec(old(self)@.contexts[k].latch),
                            ..old(self)@.contexts[k]
                        }
                    } else {
                        old(self)@.contexts[k]
                    }),
            decreases n - i,
        {
            let id = ids[i];
            proof {
                assert(ids@.contains(ids@[i as int]));
                assert(!ids@.take(i as int).contains(id)) by {
                    if ids@.take(i as int).contains(id) {
                        let j = choose|j: int|
                            0 <= j < ids@.take(i as int).len() && (#[trigger] ids@.take(
                                i as int,
                            )[j]) == id;
                        assert(ids@[j] == ids@[i as int]);
                    }
                }
            }
            let ghost prev = self@;
            let ctx = self.contexts.remove(id);
            match ctx {
                Some(mut c) => {
                    proof {
                        assert(c@ == prev.contexts[id]);
                    }
                    c.latch.begin();
                    self.contexts.insert(id, c);
                },
                None => {
                    proof {
                        assert(prev.contexts.dom().contains(id));
                        assert(false);
                    }
                },
            }
            proof {
                assert forall|k: i64|
                    ids@.take(i + 1).contains(k) <==> (ids@.take(i as int).contains(k) || k
                        == ids@[i as int]) by {
                    if ids@.take(i + 1).contains(k) {
                        let j = choose|j: int|
                            0 <= j < ids@.take(i + 1).len() && (#[trigger] ids@.take(i + 1)[j])
                                == k;
                        if j < i {
                            assert(ids@.take(i as int)[j] == k);
                            assert(ids@.take(i as int).contains(k));
                        } else {
                            assert(k == ids@[i as int]);
                        }
                    }
                    if ids@.take(i as int).contains(k) {
                        let j = choose|j: int|
                            0 <= j < ids@.take(i as int).len() && (#[trigger] ids@.take(
                                i as int,
                            )[j]) == k;
                        assert(ids@.take(i + 1)[j] == k);
                        assert(ids@.take(i + 1).contains(k));
                    }
                    if k == ids@[i as int] {
                        assert(ids@.take(i + 1)[i as int] == k);
                        assert(ids@.take(i + 1).contains(k));
                    }
                }
                assert(self@.contexts.dom() =~= prev.contexts.dom());
                assert(self@.cache =~= prev.cache);
                assert forall|k: i64| self@.contexts.dom().contains(k) implies
                    #[trigger] self@.contexts[k] == (if ids@.take(i + 1).contains(k) {
                    ConsumerContextV {
                        latch: begin_spec(old(self)@.contexts[k].latch),
                        ..old(self)@.contexts[k]
                    }
                } else {
                    old(self)@.contexts[k]
                }) by {
                    if k == id {
                        assert(prev.contexts[id] == old(self)@.contexts[id]);
                    } else {
                        assert(self@.contexts[k] == prev.contexts[k]);
                    }
                }
            }
            i = i + 1;
        }
        proof {
            assert(forall|k: i64| ids@.take(n as int).contains(k) <==> ids@.contains(k)) by {
                assert(ids@.take(n as int) =~= ids@);
            }
            assert(self@.contexts =~= spec_begin_all(old(self)@).contexts);
            assert(final(self)@.cache.dom() =~= final(self)@.contexts.dom());
        }
        ids
    }

    /// Record that the poller of `id` has observed shutdown and finished:
    /// its latch is complete.  Requires shutdown to have been signalled for
    /// the id first.
    pub fn acknowledge_shutdown(&mut self, id: i64)
        requires
            old(self).consistent(),
            old(self)@.contexts.dom().contains(id) ==> spec_is_shutdown(
                old(self)@.contexts[id].latch,
            ),
        ensures
            final(self).consistent(),
            final(self)@ == spec_acknowledge(old(self)@, id),
    {
        let ctx = self.contexts.remove(id);
        match ctx {
            Some(mut c) => {
                c.latch.complete();
                self.contexts.insert(id, c);
                proof {
                    assert(final(self)@.contexts =~= spec_acknowledge(old(self)@, id).contexts);
                    assert(final(self)@.cache =~= old(self)@.cache);
                    assert(final(self)@.cache.dom() =~= final(self)@.contexts.dom());
                }
            },
            None => {
                proof {
                    assert(final(self)@.contexts =~= old(self)@.contexts);
                    assert(final(self)@.cache =~= old(self)@.cache);
                }
            },
        }
    }

    /// Whether every live context's latch is complete; true once every
    /// poller has acknowledged shutdown.
    pub fn all_latches_complete(&self) -> (r: bool)
        ensures
            r == forall|k: i64|
                self@.contexts.dom().contains(k) ==> (#[trigger] self@.contexts[k].latch)
                    is Complete,
    {
        let ids = self.contexts.keys();
        let n = ids.len();
        let mut i: usize = 0;
        while i < n
            invariant
                i <= n,
                n == ids@.len(),
                forall|k: i64| self@.contexts.dom().contains(k) <==> ids@.contains(k),
                forall|j: int|
                    0 <= j < i ==> self@.contexts[#[trigger] ids@[j]].latch is Complete,
        decreases n - i,
        {
            proof {
                assert(ids@.contains(ids@[i as int]));
            }
            match self.contexts.get(ids[i]) {
                Some(c) => {
                    if !matches!(c.latch.state(), ShutdownState::Complete) {
                        proof {
                            assert(self@.contexts.dom().contains(ids@[i as int]));
                            assert(!(self@.contexts[ids@[i as int]].latch is Complete));
                        }
                        return false;
                    }
                },
                None => {
                    proof {
                        assert(false);
                    }
                },
            }
            i = i + 1;
        }
        proof {
            assert forall|k: i64| self@.contexts.dom().contains(k) implies (
            #[trigger] self@.contexts[k].latch) is Complete by {
                assert(ids@.contains(k));
                let j = choose|j: int| 0 <= j < ids@.len() && ids@[j] == k;
                assert(self@.contexts[ids@[j]].latch is Complete);
            }
        }
        true
    }

    /// Register every cluster of a boot listing, as loading from the
    /// persistent store does, and report the pollers to spawn: the id and
    /// cadence of each newly installed context.
    pub fn start(&mut self, clusters: &Vec<Cluster>) -> (specs: Vec<(i64, u64)>)
        requires
            old(self).consistent(),
        ensures
            final(self).consistent(),
            final(self)@ == spec_register_all(old(self)@, clusters@),
            forall|j: int|
                0 <= j < clusters@.len() ==> final(self)@.contexts.dom().contains(
                    (#[trigger] clusters@[j]).id,
                ),
            forall|j: int|
                0 <= j < specs@.len() ==> final(self)@.contexts.dom().contains(
                    (#[trigger] specs@[j]).0,
                ),
    {
        let n = clusters.len();
        let mut specs: Vec<(i64, u64)> = Vec::new();
        let mut i: usize = 0;
        while i < n
            invariant
                i <= n,
                n == clusters@.len(),
                self.consistent(),
                self@ == spec_register_all(old(self)@, clusters@.take(i as int)),
                forall|j: int|
                    0 <= j < i ==> self@.contexts.dom().contains((#[trigger] clusters@[j]).id),
                forall|j: int|
                    0 <= j < specs@.len() ==> self@.contexts.dom().contains(
                        (#[trigger] specs@[j]).0,
                    ),
            decreases n - i,
        {
            let c = &clusters[i];
            let outcome = self.register(c);
            match outcome {
                RegisterOutcome::Registered { interval_ms } => {
                    specs.push((c.id, interval_ms));
                },
                RegisterOutcome::AlreadyRegistered => {
                },
            }
            proof {
                assert(clusters@.take(i + 1).drop_last() =~= clusters@.take(i as int));
                assert(clusters@.take(i + 1).last() == clusters@[i as int]);
                lemma_register_all_step(old(self)@, clusters@.take(i + 1));
                lemma_register_preserves_dom(
                    spec_register_all(old(self)@, clusters@.take(i as int)),
                    clusters@[i as int].id,
                    spec_poll_interval_ms(clusters@[i as int].config@),
                );
            }
            i = i + 1;
        }
        proof {
            assert(clusters@.take(n as int) =~= clusters@);
        }
        specs
    }
}

/// The state after registering every cluster of a listing in order.
pub open spec fn spec_register_all(m: MetadataManagerV, cs: Seq<Cluster>) -> MetadataManagerV
    decreases cs.len(),
{
    if cs.len() == 0 {
        m
    } else {
        spec_register(
            spec_register_all(m, cs.drop_last()),
            cs.last().id,
            spec_poll_interval_ms(cs.last().config@),
        )
    }
}

/// Unfolding `spec_register_all` by one step, for a non-empty listing.
proof fn lemma_register_all_step(m: MetadataManagerV, cs: Seq<Cluster>)
    requires
        cs.len() > 0,
    ensures
        spec_register_all(m, cs) == spec_register(
            spec_register_all(m, cs.drop_last()),
            cs.last().id,
            spec_poll_interval_ms(cs.last().config@),
        ),
{
}

/// Registration never removes an id, and installs the one registered.
proof fn lemma_register_preserves_dom(m: MetadataManagerV, id: i64, interval_ms: u64)
    ensures
        spec_register(m, id, interval_ms).contexts.dom().contains(id),
        forall|k: i64|
            m.contexts.dom().contains(k) ==> spec_register(
                m,
                id,
                interval_ms,
            ).contexts.dom().contains(k),
{
}

/// Registering an id that already has a live context is a no-op: the state,
/// the cache entry included, is undisturbed.
pub proof fn lemma_register_registered_noop(m: MetadataManagerV, id: i64, interval_ms: u64)
    requires
        m.contexts.dom().contains(id),
    ensures
        spec_register(m, id, interval_ms) == m,
{
}

/// Removal followed by registration of the same id installs a fresh
/// context: an unfired latch, the requested cadence, and a cache entry that
/// begins with `Processing`.  The two epochs share no state.
pub proof fn lemma_remove_then_register_fresh(m: MetadataManagerV, id: i64, interval_ms: u64)
    ensures
        ({
            let r = spec_register(spec_remove(m, id), id, interval_ms);
            &&& r.contexts.dom().contains(id)
            &&& r.contexts[id].latch is NotStarted
            &&& r.contexts[id].interval_ms == interval_ms
            &&& r.cache.dom().contains(id)
            &&& r.cache[id] is Processing
        }),
{
}

/// Removing an id twice leaves the same state as removing it once: the
/// second call is a no-op.
pub proof fn lemma_remove_idempotent(m: MetadataManagerV, id: i64)
    ensures
        spec_remove(spec_remove(m, id), id) == spec_remove(m, id),
{
    assert(spec_remove(spec_remove(m, id), id).contexts =~= spec_remove(m, id).contexts);
    assert(spec_remove(spec_remove(m, id), id).cache =~= spec_remove(m, id).cache);
}

/// Every operation of the manager preserves the standing invariant: the
/// contexts and the cache hold the same ids, and no stored entry is
/// `Unknown`.
pub proof fn lemma_operations_preserve_consistency(
    m: MetadataManagerV,
    id: i64,
    interval_ms: u64,
    outcome: Result<ClusterMetadataV, Seq<char>>,
)
    requires
        m.consistent(),
    ensures
        spec_register(m, id, interval_ms).consistent(),
        spec_remove(m, id).consistent(),
        spec_apply_fetch(m, id, outcome).consistent(),
        spec_begin_all(m).consistent(),
        spec_acknowledge(m, id).consistent(),
{
    assert(spec_register(m, id, interval_ms).cache.dom() =~= spec_register(
        m,
        id,
        interval_ms,
    ).contexts.dom());
    assert(spec_remove(m, id).cache.dom() =~= spec_remove(m, id).contexts.dom());
    assert(spec_apply_fetch(m, id, outcome).cache.dom() =~= spec_apply_fetch(
        m,
        id,
        outcome,
    ).contexts.dom());
    assert(spec_begin_all(m).cache.dom() =~= spec_begin_all(m).contexts.dom());
    assert(spec_acknowledge(m, id).cache.dom() =~= spec_acknowledge(m, id).contexts.dom());
}

/// A registration and a removal of the same id racing: whichever order the
/// write lock serialises them in, the state stays consistent, and the id
/// ends either absent from both maps (removal last) or freshly registered
/// with a `Processing` entry (registration last).  There is never a context
/// without a cache entry nor a cache entry without a context.
pub proof fn lemma_register_remove_race(m: MetadataManagerV, id: i64, interval_ms: u64)
    requires
        m.consistent(),
    ensures
        ({
            let removal_last = spec_remove(spec_register(m, id, interval_ms), id);
            &&& removal_last.consistent()
            &&& !removal_last.contexts.dom().contains(id)
            &&& !removal_last.cache.dom().contains(id)
        }),
        ({
            let register_last = spec_register(spec_remove(m, id), id, interval_ms);
            &&& register_last.consistent()
            &&& register_last.contexts.dom().contains(id)
            &&& register_last.cache.dom().contains(id)
            &&& register_last.cache[id] is Processing
        }),
{
    lemma_operations_preserve_consistency(m, id, interval_ms, Err(Seq::empty()));
    lemma_operations_preserve_consistency(
        spec_register(m, id, interval_ms),
        id,
        interval_ms,
        Err(Seq::empty()),
    );
    lemma_operations_preserve_consistency(spec_remove(m, id), id, interval_ms, Err(Seq::empty()));
    lemma_remove_then_register_fresh(m, id, interval_ms);
}

/// The state after the pollers of `ids` acknowledge shutdown, in order.
pub open spec fn spec_acknowledge_all(m: MetadataManagerV, ids: Seq<i64>) -> MetadataManagerV
    decreases ids.len(),
{
    if ids.len() == 0 {
        m
    } else {
        spec_acknowledge_all(spec_acknowledge(m, ids[0]), ids.drop_first())
    }
}

/// Acknowledgments only complete latches: ids are kept, the cache is kept,
/// an acknowledged id's latch is complete and the others are untouched.
proof fn lemma_acknowledge_all_facts(m: MetadataManagerV, ids: Seq<i64>)
    ensures
        ({
            let r = spec_acknowledge_all(m, ids);
            &&& r.contexts.dom() == m.contexts.dom()
            &&& r.cache == m.cache
            &&& forall|k: i64|
                r.contexts.dom().contains(k) ==> #[trigger] r.contexts[k] == (if ids.contains(k) {
                    ConsumerContextV { latch: ShutdownState::Complete, ..m.contexts[k] }
                } else {
                    m.contexts[k]
                })
        }),
    decreases ids.len(),
{
    if ids.len() == 0 {
        assert(forall|k: i64| !ids.contains(k));
    } else {
        let m1 = spec_acknowledge(m, ids[0]);
        assert(m1.contexts.dom() =~= m.contexts.dom());
        lemma_acknowledge_all_facts(m1, ids.drop_first());
        let r = spec_acknowledge_all(m, ids);
        assert forall|k: i64| r.contexts.dom().contains(k) implies #[trigger] r.contexts[k] == (
        if ids.contains(k) {
            ConsumerContextV { latch: ShutdownState::Complete, ..m.contexts[k] }
        } else {
            m.contexts[k]
        }) by {
            assert(ids.contains(k) <==> (k == ids[0] || ids.drop_first().contains(k))) by {
                if ids.contains(k) {
                    let j = choose|j: int| 0 <= j < ids.len() && ids[j] == k;
                    if j > 0 {
                        assert(ids.drop_first()[j - 1] == k);
                        assert(ids.drop_first().contains(k));
                    }
                }
                if ids.drop_first().contains(k) {
                    let j = choose|j: int|
                        0 <= j < ids.drop_first().len() && (#[trigger] ids.drop_first()[j]) == k;
                    assert(ids[j + 1] == k);
                }
                if k == ids[0] {
                    assert(ids.contains(k));
                }
            }
        }
    }
}

/// The cooperative shutdown protocol runs to quiescence: after shutdown is
/// signalled to every poller and each live poller has acknowledged, every
/// latch is `Complete` — no background task is live.
pub proof fn lemma_stop_protocol(m: MetadataManagerV, ids: Seq<i64>)
    requires
        forall|k: i64| m.contexts.dom().contains(k) ==> ids.contains(k),
    ensures
        ({
            let r = spec_acknowledge_all(spec_begin_all(m), ids);
            &&& r.contexts.dom() == m.contexts.dom()
            &&& forall|k: i64|
                r.contexts.dom().contains(k) ==> (#[trigger] r.contexts[k].latch) is Complete
        }),
{
    let begun = spec_begin_all(m);
    assert(begun.contexts.dom() =~= m.contexts.dom());
    lemma_acknowledge_all_facts(begun, ids);
}

} // verus!
