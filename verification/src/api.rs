//! Decision logic of the HTTP handlers: what each endpoint persists,
//! registers or answers, as a function of the stores and the manager.  The
//! transport layer around the library turns these outcomes into responses.

use vstd::prelude::*;
use crate::cluster::{Cluster, Kind};
use crate::config::{ConfigMap, spec_poll_interval_ms};
use crate::error::Error;
use crate::manager::{
    CachedMetadataEntry, MetadataManager, ConsumerContext, RegisterOutcome, spec_register,
    spec_remove,
};
use crate::store::{MemoryClusterStore, MemorySubscriptionStore};
use crate::subscription::Subscription;

verus! {

/// How a request fails: an addressed entity that does not exist, or an
/// internal fault.
#[derive(Debug)]
pub enum ApiError {
    NotFound,
    Internal(Error),
}

impl ApiError {
    /// The HTTP status code the failure maps to.
    pub fn status(&self) -> (r: u16)
        ensures
            *self is NotFound <==> r == 404,
            *self is Internal <==> r == 500,
    {
        match self {
            ApiError::NotFound => 404,
            ApiError::Internal(_) => 500,
        }
    }
}

/// Create a cluster: persist it under a fresh id, then register a poller
/// for it.  The persisted record keeps the requested kind, name and
/// configuration; a registration for the new id is installed with the
/// configuration's poll cadence.
pub fn create_cluster(
    store: &mut MemoryClusterStore,
    manager: &mut MetadataManager,
    kind: Kind,
    name: String,
    config: ConfigMap,
) -> (r: Result<(i64, RegisterOutcome), Error>)
    requires
        old(store).wf(),
        old(manager).consistent(),
    ensures
        final(store).wf(),
        final(manager).consistent(),
        old(store).can_assign_id() ==> r is Ok,
        match r {
            Ok((id, outcome)) => {
                &&& id > 0
                &&& !old(store)@.dom().contains(id)
                &&& (outcome is AlreadyRegistered <==> old(manager)@.contexts.dom().contains(id))
                &&& final(store)@.dom().contains(id)
                &&& final(store)@[id].kind == kind
                &&& final(store)@[id].name == name@
                &&& final(store)@[id].config == config@
                &&& final(manager)@ == spec_register(
                    old(manager)@,
                    id,
                    spec_poll_interval_ms(config@),
                )
            },
            Err(_) => final(store)@ == old(store)@ && final(manager)@ == old(manager)@,
        },
{
    let cluster = Cluster::new(None, kind, name, config);
    let ghost cv = cluster@;
    let registered = cluster.clone();
    match store.insert(cluster) {
        Ok(id) => {
            let outcome = manager.register(&registered.with_id(id));
            Ok((id, outcome))
        },
        Err(e) => Err(e),
    }
}

/// Delete a cluster: remove it from the store first, then take its poller
/// out of the registry — in that order, so the registry cannot resurrect a
/// deleted cluster on its next poll.  The removed context, if any, carries
/// the begun latch for the caller to release.
pub fn delete_cluster(store: &mut MemoryClusterStore, manager: &mut MetadataManager, id: i64) -> (r:
    Option<ConsumerContext>)
    requires
        old(store).wf(),
        old(manager).consistent(),
    ensures
        final(store).wf(),
        final(manager).consistent(),
        final(store)@ == old(store)@.remove(id),
        final(manager)@ == spec_remove(old(manager)@, id),
        r is Some <==> old(manager)@.contexts.dom().contains(id),
{
    let _ = store.remove(id);
    manager.remove(id)
}

/// Read a cluster's cached metadata entry: the entry as the poller last
/// left it, or a not-found failure for an unregistered id.
pub fn read_cluster_metadata(manager: &MetadataManager, id: i64) -> (r: Result<
    CachedMetadataEntry,
    ApiError,
>)
    ensures
        match r {
            Ok(e) => manager@.cache.dom().contains(id) && e@ == manager@.cache[id],
            Err(e) => !manager@.cache.dom().contains(id) && e is NotFound,
        },
{
    match manager.get(id) {
        Some(e) => Ok(e),
        None => Err(ApiError::NotFound),
    }
}

/// Create a subscription: the referenced cluster must exist, else the
/// request is answered not-found and the subscription store is untouched.
/// With the cluster present, the record is persisted under a fresh id that
/// preserves every requested field.
pub fn create_subscription(
    clusters: &MemoryClusterStore,
    subs: &mut MemorySubscriptionStore,
    cluster_id: i64,
    topic_name: String,
    config: ConfigMap,
) -> (r: Result<i64, ApiError>)
    requires
        old(subs).wf(),
    ensures
        final(subs).wf(),
        clusters@.dom().contains(cluster_id) && old(subs).can_assign_id() ==> r is Ok,
        !clusters@.dom().contains(cluster_id) ==> (r matches Err(e) && e is NotFound
            && final(subs)@ == old(subs)@),
        r matches Err(e) && e is NotFound ==> !clusters@.dom().contains(cluster_id),
        match r {
            Ok(id) => {
                &&& clusters@.dom().contains(cluster_id)
                &&& id > 0
                &&& final(subs)@.dom().contains(id)
                &&& final(subs)@[id].cluster_id == cluster_id
                &&& final(subs)@[id].topic_name == topic_name@
                &&& final(subs)@[id].config == config@
            },
            Err(_) => final(subs)@ == old(subs)@,
        },
{
    match clusters.get(cluster_id) {
        Some(_) => {
            let sub = Subscription::new(None, cluster_id, topic_name, config);
            match subs.insert(sub) {
                Ok(id) => Ok(id),
                Err(e) => Err(ApiError::Internal(e)),
            }
        },
        None => Err(ApiError::NotFound),
    }
}

/// Every stored subscription of the cluster appears in the listing.
pub open spec fn listing_covers(
    stored: Map<i64, crate::subscription::SubscriptionV>,
    cluster_id: i64,
    listing: Seq<Subscription>,
) -> bool {
    forall|k: i64|
        stored.dom().contains(k) && (#[trigger] stored[k]).cluster_id == cluster_id as int
            ==> exists|j: int| 0 <= j < listing.len() && (#[trigger] listing[j]).id == k
}

/// List a cluster's subscriptions for a response: the cluster must exist,
/// else the request is answered not-found; otherwise exactly the records
/// that belong to the cluster are returned.
pub fn list_subscriptions(
    clusters: &MemoryClusterStore,
    subs: &MemorySubscriptionStore,
    cluster_id: i64,
) -> (r: Result<Vec<Subscription>, ApiError>)
    requires
        subs.wf(),
    ensures
        r matches Err(e) ==> e is NotFound && !clusters@.dom().contains(cluster_id),
        !clusters@.dom().contains(cluster_id) ==> r is Err,
        r is Ok ==> clusters@.dom().contains(cluster_id),
        r matches Ok(listing) ==> forall|j: int|
            0 <= j < listing@.len() ==> {
                &&& subs@.dom().contains((#[trigger] listing@[j]).id)
                &&& listing@[j]@ == subs@[listing@[j].id]
                &&& listing@[j].cluster_id == cluster_id
            },
        r matches Ok(listing) ==> listing_covers(subs@, cluster_id, listing@),
{
    match clusters.get(cluster_id) {
        Some(_) => {
            let listing = subs.list(Some(cluster_id));
            proof {
                assert forall|j: int| 0 <= j < listing@.len() implies (
                #[trigger] listing@[j]).cluster_id == cluster_id by {
                    assert(crate::store::spec_listed(subs@[listing@[j].id], Some(cluster_id)));
                    assert(listing@[j]@.cluster_id == cluster_id as int);
                }
                assert(listing_covers(subs@, cluster_id, listing@));
            }
            Ok(listing)
        },
        None => Err(ApiError::NotFound),
    }
}

/// Look up a subscription for a response: the cluster must exist and the
/// record must belong to it.
pub fn read_subscription(
    clusters: &MemoryClusterStore,
    subs: &MemorySubscriptionStore,
    cluster_id: i64,
    id: i64,
) -> (r: Result<Subscription, ApiError>)
    ensures
        match r {
            Ok(s) => {
                &&& clusters@.dom().contains(cluster_id)
                &&& subs@.dom().contains(id)
                &&& s@ == subs@[id]
                &&& s@.cluster_id == cluster_id as int
            },
            Err(e) => e is NotFound && (!clusters@.dom().contains(cluster_id) || !subs
                @.dom().contains(id) || subs@[id].cluster_id != cluster_id as int),
        },
{
    match clusters.get(cluster_id) {
        Some(_) => {
            match subs.get(cluster_id, id) {
                Some(s) => Ok(s),
                None => Err(ApiError::NotFound),
            }
        },
        None => Err(ApiError::NotFound),
    }
}

} // verus!
