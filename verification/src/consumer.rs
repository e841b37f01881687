//! The metadata-fetching capability: a per-cluster collaborator that
//! returns canonically sorted snapshots, and in-library implementations of
//! it for fixed and failing sources.
//!
//! The wire-level client is built from a cluster's configuration — the
//! recognised keys and their defaults live in [`crate::config`] — and runs
//! outside the library; pollers hand its outcomes to the manager.

use vstd::prelude::*;
use crate::cluster::Cluster;
use crate::config::{
    ConfigMap, bootstrap_servers, group_id, spec_bootstrap_servers, spec_group_id,
};
use crate::error::Error;
use crate::metadata::ClusterMetadata;
use crate::order::Ordered;

verus! {

/// Timeout for each underlying metadata call, in milliseconds.
pub const FETCH_METADATA_TIMEOUT_MS: u64 = 15000;

/// What a metadata client needs from a cluster's configuration: the broker
/// discovery seeds and the probe consumer's group id, with the documented
/// defaults applied.
pub struct ConsumerSettings {
    pub bootstrap_servers: String,
    pub group_id: String,
}

impl ConsumerSettings {
    /// Resolve the client settings from a cluster's configuration.
    pub fn from_config(config: &ConfigMap) -> (r: ConsumerSettings)
        ensures
            r.bootstrap_servers@ == spec_bootstrap_servers(config@),
            r.group_id@ == spec_group_id(config@),
    {
        ConsumerSettings { bootstrap_servers: bootstrap_servers(config), group_id: group_id(config) }
    }

    /// Resolve the client settings for a cluster.
    pub fn for_cluster(cluster: &Cluster) -> (r: ConsumerSettings)
        ensures
            r.bootstrap_servers@ == spec_bootstrap_servers(cluster.config@),
            r.group_id@ == spec_group_id(cluster.config@),
    {
        Self::from_config(&cluster.config)
    }
}

/// A source of metadata snapshots for one cluster.  A successful fetch
/// yields a fully populated snapshot in canonical order; a failure must not
/// poison the source — the next call starts afresh.
pub trait MetadataConsumer {
    /// One metadata fetch.
    fn fetch_meta(&mut self) -> (r: Result<ClusterMetadata, Error>)
        ensures
            r matches Ok(m) ==> m.canonical(),
    ;
}

/// A metadata source that serves a fixed snapshot on every call.
pub struct FixedMetadataConsumer {
    snapshot: ClusterMetadata,
}

impl FixedMetadataConsumer {
    #[verifier::type_invariant]
    spec fn wf(&self) -> bool {
        self.snapshot.canonical()
    }

    /// The snapshot the source serves.
    pub closed spec fn spec_snapshot(&self) -> ClusterMetadata {
        self.snapshot
    }

    /// A source serving the given snapshot, brought into canonical order:
    /// the same brokers, groups and topics, sorted as the fetch contract
    /// demands.
    pub fn new(snapshot: ClusterMetadata) -> (r: FixedMetadataConsumer)
        ensures
            r.spec_snapshot().canonical(),
            r.spec_snapshot().brokers@.to_multiset() == snapshot.brokers@.to_multiset(),
            r.spec_snapshot().groups@.to_multiset() == snapshot.groups@.to_multiset(),
            exists|mid: Seq<crate::metadata::TopicMetadata>|
                #[trigger] crate::metadata::topics_canonicalized(
                    snapshot.topics@,
                    mid,
                    r.spec_snapshot().topics@,
                ),
    {
        FixedMetadataConsumer { snapshot: snapshot.canonicalize() }
    }
}

/// Equal snapshot content carries the canonical order with it.
proof fn lemma_canonical_of_view(a: &ClusterMetadata, b: &ClusterMetadata)
    requires
        a@ == b@,
        a.canonical(),
    ensures
        b.canonical(),
{
    assert(crate::metadata::broker_views(a.brokers@).len() == a.brokers@.len());
    assert(crate::metadata::broker_views(b.brokers@).len() == b.brokers@.len());
    assert(crate::metadata::group_views(a.groups@).len() == a.groups@.len());
    assert(crate::metadata::group_views(b.groups@).len() == b.groups@.len());
    assert(crate::metadata::topic_views(a.topics@).len() == a.topics@.len());
    assert(crate::metadata::topic_views(b.topics@).len() == b.topics@.len());
    assert(a.brokers@.len() == b.brokers@.len());
    assert(a.groups@.len() == b.groups@.len());
    assert(a.topics@.len() == b.topics@.len());
    assert forall|i: int, j: int|
        0 <= i < j < b.brokers@.len() implies (#[trigger] b.brokers@[i].leq(b.brokers@[j])) by {
        assert(crate::metadata::broker_views(a.brokers@)[i] == crate::metadata::broker_views(
            b.brokers@,
        )[i]);
        assert(crate::metadata::broker_views(a.brokers@)[j] == crate::metadata::broker_views(
            b.brokers@,
        )[j]);
        assert(a.brokers@[i]@ == b.brokers@[i]@);
        assert(a.brokers@[j]@ == b.brokers@[j]@);
        assert(a.brokers@[i].leq(a.brokers@[j]));
    }
    assert forall|i: int, j: int|
        0 <= i < j < b.groups@.len() implies (#[trigger] b.groups@[i].leq(b.groups@[j])) by {
        assert(crate::metadata::group_views(a.groups@)[i] == crate::metadata::group_views(
            b.groups@,
        )[i]);
        assert(crate::metadata::group_views(a.groups@)[j] == crate::metadata::group_views(
            b.groups@,
        )[j]);
        assert(a.groups@[i]@ == b.groups@[i]@);
        assert(a.groups@[j]@ == b.groups@[j]@);
        assert(a.groups@[i].leq(a.groups@[j]));
    }
    assert forall|i: int, j: int|
        0 <= i < j < b.topics@.len() implies (#[trigger] b.topics@[i].leq(b.topics@[j])) by {
        assert(crate::metadata::topic_views(a.topics@)[i] == crate::metadata::topic_views(
            b.topics@,
        )[i]);
        assert(crate::metadata::topic_views(a.topics@)[j] == crate::metadata::topic_views(
            b.topics@,
        )[j]);
        assert(a.topics@[i]@ == b.topics@[i]@);
        assert(a.topics@[j]@ == b.topics@[j]@);
        assert(a.topics@[i].leq(a.topics@[j]));
    }
    assert forall|i: int|
        0 <= i < b.topics@.len() implies #[trigger] crate::metadata::canonical_topic(
        b.topics@[i],
    ) by {
        assert(crate::metadata::topic_views(a.topics@)[i] == crate::metadata::topic_views(
            b.topics@,
        )[i]);
        assert(a.topics@[i]@ == b.topics@[i]@);
        assert(crate::metadata::canonical_topic(a.topics@[i]));
        let pa = a.topics@[i].partitions@;
        let pb = b.topics@[i].partitions@;
        assert(crate::metadata::partition_views(pa) == crate::metadata::partition_views(pb));
        assert(crate::metadata::partition_views(pa).len() == pa.len());
        assert(crate::metadata::partition_views(pb).len() == pb.len());
        assert(pa.len() == pb.len());
        assert forall|x: int, y: int| 0 <= x < y < pb.len() implies (#[trigger] pb[x].leq(
            pb[y],
        )) by {
            assert(crate::metadata::partition_views(pa)[x] == crate::metadata::partition_views(
                pb,
            )[x]);
            assert(crate::metadata::partition_views(pa)[y] == crate::metadata::partition_views(
                pb,
            )[y]);
            assert(pa[x]@ == pb[x]@);
            assert(pa[y]@ == pb[y]@);
            assert(pa[x].leq(pa[y]));
        }
    }
}

impl MetadataConsumer for FixedMetadataConsumer {
    /// Serve a copy of the fixed snapshot; never fails.
    fn fetch_meta(&mut self) -> (r: Result<ClusterMetadata, Error>)
        ensures
            r matches Ok(m) && m@ == old(self).spec_snapshot()@,
            final(self).spec_snapshot() == old(self).spec_snapshot(),
    {
        proof {
            use_type_invariant(&*self);
        }
        let copy = self.snapshot.clone();
        proof {
            lemma_canonical_of_view(&self.snapshot, &copy);
        }
        Ok(copy)
    }
}

/// A metadata source that fails with a fixed reason on every call, as an
/// unreachable cluster does.
pub struct FailingMetadataConsumer {
    pub reason: String,
}

impl MetadataConsumer for FailingMetadataConsumer {
    /// Report the failure; the source itself never yields a snapshot.
    fn fetch_meta(&mut self) -> (r: Result<ClusterMetadata, Error>)
        ensures
            r matches Err(e) && e.reason_view() == old(self).reason@,
            final(self).reason@ == old(self).reason@,
    {
        Err(Error::Io(self.reason.clone()))
    }
}

} // verus!
