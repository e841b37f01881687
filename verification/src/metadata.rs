//! Cluster metadata snapshots: brokers, consumer groups, topics and their
//! partitions, in the canonical order the wire format exposes.
//!
//! Ordering is part of the contract: brokers are sorted by host, topics and
//! groups by name, and each topic's partitions by id, so equality
//! comparisons and external diffs are stable.

use vstd::prelude::*;
use crate::order::{Ordered, sorted, sort_vec};
use crate::strings::{lex_le, lemma_lex_le_total, lemma_lex_le_trans, str_le};

verus! {

/// Mathematical content of a [`BrokerMetadata`].
pub struct BrokerMetadataV {
    pub id: int,
    pub host: Seq<char>,
    pub port: int,
}

/// One broker of a cluster.
#[derive(Debug)]
pub struct BrokerMetadata {
    pub id: i32,
    pub host: String,
    pub port: i32,
}

impl View for BrokerMetadata {
    type V = BrokerMetadataV;

    open spec fn view(&self) -> BrokerMetadataV {
        BrokerMetadataV { id: self.id as int, host: self.host@, port: self.port as int }
    }
}

impl Clone for BrokerMetadata {
    /// A copy with the same content as the original.
    fn clone(&self) -> (r: BrokerMetadata)
        ensures
            r@ == self@,
    {
        BrokerMetadata { id: self.id, host: self.host.clone(), port: self.port }
    }
}

impl Ordered for BrokerMetadata {
    /// Brokers are ordered by host.
    open spec fn leq(self, other: Self) -> bool {
        lex_le(self.host@, other.host@)
    }

    proof fn lemma_leq_total(a: Self, b: Self) {
        lemma_lex_le_total(a.host@, b.host@);
    }

    proof fn lemma_leq_trans(a: Self, b: Self, c: Self) {
        lemma_lex_le_trans(a.host@, b.host@, c.host@);
    }

    fn leq_exec(&self, other: &Self) -> (r: bool) {
        str_le(self.host.as_str(), other.host.as_str())
    }
}

/// Mathematical content of a [`PartitionMetadata`].
pub struct PartitionMetadataV {
    pub id: int,
    pub leader: int,
    pub replicas: Seq<i32>,
    pub isr: Seq<i32>,
    pub error: Option<Seq<char>>,
}

/// One partition of a topic.
#[derive(Debug)]
pub struct PartitionMetadata {
    pub id: i32,
    pub leader: i32,
    pub replicas: Vec<i32>,
    pub isr: Vec<i32>,
    pub error: Option<String>,
}

impl View for PartitionMetadata {
    type V = PartitionMetadataV;

    open spec fn view(&self) -> PartitionMetadataV {
        PartitionMetadataV {
            id: self.id as int,
            leader: self.leader as int,
            replicas: self.replicas@,
            isr: self.isr@,
            error: match self.error {
                Some(ref e) => Some(e@),
                None => None,
            },
        }
    }
}

impl Clone for PartitionMetadata {
    /// A copy with the same content as the original.
    fn clone(&self) -> (r: PartitionMetadata)
        ensures
            r@ == self@,
    {
        let r = PartitionMetadata {
            id: self.id,
            leader: self.leader,
            replicas: self.replicas.clone(),
            isr: self.isr.clone(),
            error: match &self.error {
                Some(e) => Some(e.clone()),
                None => None,
            },
        };
        proof {
            assert(r.replicas@ =~= self.replicas@);
            assert(r.isr@ =~= self.isr@);
        }
        r
    }
}

impl Ordered for PartitionMetadata {
    /// Partitions are ordered by id.
    open spec fn leq(self, other: Self) -> bool {
        self.id <= other.id
    }

    proof fn lemma_leq_total(a: Self, b: Self) {
    }

    proof fn lemma_leq_trans(a: Self, b: Self, c: Self) {
    }

    fn leq_exec(&self, other: &Self) -> (r: bool) {
        self.id <= other.id
    }
}

/// Mathematical content of a [`TopicMetadata`].
pub struct TopicMetadataV {
    pub name: Seq<char>,
    pub partitions: Seq<PartitionMetadataV>,
}

/// One topic of a cluster, with its partitions.
#[derive(Debug)]
pub struct TopicMetadata {
    pub name: String,
    pub partitions: Vec<PartitionMetadata>,
}

/// The views of a sequence of partitions.
pub open spec fn partition_views(s: Seq<PartitionMetadata>) -> Seq<PartitionMetadataV> {
    s.map_values(|p: PartitionMetadata| p@)
}

impl View for TopicMetadata {
    type V = TopicMetadataV;

    open spec fn view(&self) -> TopicMetadataV {
        TopicMetadataV { name: self.name@, partitions: partition_views(self.partitions@) }
    }
}

/// Copy a partition list; the copy has the same content pointwise.
fn clone_partitions(v: &Vec<PartitionMetadata>) -> (r: Vec<PartitionMetadata>)
    ensures
        partition_views(r@) == partition_views(v@),
        r@.len() == v@.len(),
{
    let n = v.len();
    let mut out: Vec<PartitionMetadata> = Vec::new();
    let mut i: usize = 0;
    while i < n
        invariant
            i <= n,
            n == v@.len(),
            out@.len() == i,
            forall|j: int| 0 <= j < i ==> (#[trigger] out@[j])@ == v@[j]@,
        decreases n - i,
    {
        out.push(v[i].clone());
        i = i + 1;
    }
    proof {
        assert(partition_views(out@) =~= partition_views(v@));
    }
    out
}

impl Clone for TopicMetadata {
    /// A copy with the same content as the original.
    fn clone(&self) -> (r: TopicMetadata)
        ensures
            r@ == self@,
    {
        TopicMetadata { name: self.name.clone(), partitions: clone_partitions(&self.partitions) }
    }
}

impl Ordered for TopicMetadata {
    /// Topics are ordered by name.
    open spec fn leq(self, other: Self) -> bool {
        lex_le(self.name@, other.name@)
    }

    proof fn lemma_leq_total(a: Self, b: Self) {
        lemma_lex_le_total(a.name@, b.name@);
    }

    proof fn lemma_leq_trans(a: Self, b: Self, c: Self) {
        lemma_lex_le_trans(a.name@, b.name@, c.name@);
    }

    fn leq_exec(&self, other: &Self) -> (r: bool) {
        str_le(self.name.as_str(), other.name.as_str())
    }
}

/// Mathematical content of a [`GroupMember`].
pub struct GroupMemberV {
    pub id: Seq<char>,
    pub client_id: Seq<char>,
    pub client_host: Seq<char>,
}

/// One member of a consumer group.
#[derive(Debug)]
pub struct GroupMember {
    pub id: String,
    pub client_id: String,
    pub client_host: String,
}

impl View for GroupMember {
    type V = GroupMemberV;

    open spec fn view(&self) -> GroupMemberV {
        GroupMemberV { id: self.id@, client_id: self.client_id@, client_host: self.client_host@ }
    }
}

impl Clone for GroupMember {
    /// A copy with the same content as the original.
    fn clone(&self) -> (r: GroupMember)
        ensures
            r@ == self@,
    {
        GroupMember {
            id: self.id.clone(),
            client_id: self.client_id.clone(),
            client_host: self.client_host.clone(),
        }
    }
}

/// Mathematical content of a [`GroupMetadata`].
pub struct GroupMetadataV {
    pub name: Seq<char>,
    pub state: Seq<char>,
    pub members: Seq<GroupMemberV>,
}

/// One consumer group of a cluster, with its members.
#[derive(Debug)]
pub struct GroupMetadata {
    pub name: String,
    pub state: String,
    pub members: Vec<GroupMember>,
}

/// The views of a sequence of group members.
pub open spec fn member_views(s: Seq<GroupMember>) -> Seq<GroupMemberV> {
    s.map_values(|m: GroupMember| m@)
}

impl View for GroupMetadata {
    type V = GroupMetadataV;

    open spec fn view(&self) -> GroupMetadataV {
        GroupMetadataV { name: self.name@, state: self.state@, members: member_views(self.members@) }
    }
}

/// Copy a member list; the copy has the same content pointwise.
fn clone_members(v: &Vec<GroupMember>) -> (r: Vec<GroupMember>)
    ensures
        member_views(r@) == member_views(v@),
        r@.len() == v@.len(),
{
    let n = v.len();
    let mut out: Vec<GroupMember> = Vec::new();
    let mut i: usize = 0;
    while i < n
        invariant
            i <= n,
            n == v@.len(),
            out@.len() == i,
            forall|j: int| 0 <= j < i ==> (#[trigger] out@[j])@ == v@[j]@,
        decreases n - i,
    {
        out.push(v[i].clone());
        i = i + 1;
    }
    proof {
        assert(member_views(out@) =~= member_views(v@));
    }
    out
}

impl Clone for GroupMetadata {
    /// A copy with the same content as the original.
    fn clone(&self) -> (r: GroupMetadata)
        ensures
            r@ == self@,
    {
        GroupMetadata {
            name: self.name.clone(),
            state: self.state.clone(),
            members: clone_members(&self.members),
        }
    }
}

impl Ordered for GroupMetadata {
    /// Groups are ordered by name.
    open spec fn leq(self, other: Self) -> bool {
        lex_le(self.name@, other.name@)
    }

    proof fn lemma_leq_total(a: Self, b: Self) {
        lemma_lex_le_total(a.name@, b.name@);
    }

    proof fn lemma_leq_trans(a: Self, b: Self, c: Self) {
        lemma_lex_le_trans(a.name@, b.name@, c.name@);
    }

    fn leq_exec(&self, other: &Self) -> (r: bool) {
        str_le(self.name.as_str(), other.name.as_str())
    }
}

/// Mathematical content of a [`ClusterMetadata`].
pub struct ClusterMetadataV {
    pub brokers: Seq<BrokerMetadataV>,
    pub groups: Seq<GroupMetadataV>,
    pub topics: Seq<TopicMetadataV>,
}

/// A metadata snapshot of one cluster: its brokers, consumer groups and
/// topics, sampled at one instant and canonically sorted.
#[derive(Debug)]
pub struct ClusterMetadata {
    pub brokers: Vec<BrokerMetadata>,
    pub groups: Vec<GroupMetadata>,
    pub topics: Vec<TopicMetadata>,
}

/// The views of a sequence of brokers.
pub open spec fn broker_views(s: Seq<BrokerMetadata>) -> Seq<BrokerMetadataV> {
    s.map_values(|b: BrokerMetadata| b@)
}

/// The views of a sequence of groups.
pub open spec fn group_views(s: Seq<GroupMetadata>) -> Seq<GroupMetadataV> {
    s.map_values(|g: GroupMetadata| g@)
}

/// The views of a sequence of topics.
pub open spec fn topic_views(s: Seq<TopicMetadata>) -> Seq<TopicMetadataV> {
    s.map_values(|t: TopicMetadata| t@)
}

impl View for ClusterMetadata {
    type V = ClusterMetadataV;

    open spec fn view(&self) -> ClusterMetadataV {
        ClusterMetadataV {
            brokers: broker_views(self.brokers@),
            groups: group_views(self.groups@),
            topics: topic_views(self.topics@),
        }
    }
}

/// Copy a broker list; the copy has the same content pointwise.
fn clone_brokers(v: &Vec<BrokerMetadata>) -> (r: Vec<BrokerMetadata>)
    ensures
        broker_views(r@) == broker_views(v@),
        r@.len() == v@.len(),
{
    let n = v.len();
    let mut out: Vec<BrokerMetadata> = Vec::new();
    let mut i: usize = 0;
    while i < n
        invariant
            i <= n,
            n == v@.len(),
            out@.len() == i,
            forall|j: int| 0 <= j < i ==> (#[trigger] out@[j])@ == v@[j]@,
        decreases n - i,
    {
        out.push(v[i].clone());
        i = i + 1;
    }
    proof {
        assert(broker_views(out@) =~= broker_views(v@));
    }
    out
}

/// Copy a group list; the copy has the same content pointwise.
fn clone_groups(v: &Vec<GroupMetadata>) -> (r: Vec<GroupMetadata>)
    ensures
        group_views(r@) == group_views(v@),
        r@.len() == v@.len(),
{
    let n = v.len();
    let mut out: Vec<GroupMetadata> = Vec::new();
    let mut i: usize = 0;
    while i < n
        invariant
            i <= n,
            n == v@.len(),
            out@.len() == i,
            forall|j: int| 0 <= j < i ==> (#[trigger] out@[j])@ == v@[j]@,
        decreases n - i,
    {
        out.push(v[i].clone());
        i = i + 1;
    }
    proof {
        assert(group_views(out@) =~= group_views(v@));
    }
    out
}

/// Copy a topic list; the copy has the same content pointwise.
fn clone_topics(v: &Vec<TopicMetadata>) -> (r: Vec<TopicMetadata>)
    ensures
        topic_views(r@) == topic_views(v@),
        r@.len() == v@.len(),
{
    let n = v.len();
    let mut out: Vec<TopicMetadata> = Vec::new();
    let mut i: usize = 0;
    while i < n
        invariant
            i <= n,
            n == v@.len(),
            out@.len() == i,
            forall|j: int| 0 <= j < i ==> (#[trigger] out@[j])@ == v@[j]@,
        decreases n - i,
    {
        out.push(v[i].clone());
        i = i + 1;
    }
    proof {
        assert(topic_views(out@) =~= topic_views(v@));
    }
    out
}

impl Clone for ClusterMetadata {
    /// A copy with the same content as the original.
    fn clone(&self) -> (r: ClusterMetadata)
        ensures
            r@ == self@,
    {
        ClusterMetadata {
            brokers: clone_brokers(&self.brokers),
            groups: clone_groups(&self.groups),
            topics: clone_topics(&self.topics),
        }
    }
}

/// A topic in canonical form: partitions sorted by id.
pub open spec fn canonical_topic(t: TopicMetadata) -> bool {
    sorted::<PartitionMetadata>(t.partitions@)
}

/// `fin` holds `orig`'s content with its partitions sorted: the same name
/// and the same partitions, in canonical order.
pub open spec fn topic_canonicalized(orig: TopicMetadata, fin: TopicMetadata) -> bool {
    &&& fin.name@ == orig.name@
    &&& fin.partitions@.to_multiset() == orig.partitions@.to_multiset()
    &&& canonical_topic(fin)
}

/// `fin` is a permutation of some pointwise canonicalisation `mid` of
/// `orig`: each topic keeps its name and its partitions (sorted), and the
/// topics themselves are reordered only.
pub open spec fn topics_canonicalized(
    orig: Seq<TopicMetadata>,
    mid: Seq<TopicMetadata>,
    fin: Seq<TopicMetadata>,
) -> bool {
    &&& mid.len() == orig.len()
    &&& forall|i: int| 0 <= i < mid.len() ==> #[trigger] topic_canonicalized(orig[i], mid[i])
    &&& fin.to_multiset() == mid.to_multiset()
}

impl ClusterMetadata {
    /// The snapshot is in canonical order: brokers sorted by host, topics
    /// and groups sorted by name, and each topic's partitions sorted by id.
    pub open spec fn canonical(&self) -> bool {
        &&& sorted::<BrokerMetadata>(self.brokers@)
        &&& sorted::<GroupMetadata>(self.groups@)
        &&& sorted::<TopicMetadata>(self.topics@)
        &&& forall|i: int|
            0 <= i < self.topics@.len() ==> #[trigger] canonical_topic(self.topics@[i])
    }

    /// An empty snapshot; trivially canonical.
    pub fn empty() -> (r: ClusterMetadata)
        ensures
            r.canonical(),
            r.brokers@.len() == 0,
            r.groups@.len() == 0,
            r.topics@.len() == 0,
    {
        ClusterMetadata { brokers: Vec::new(), groups: Vec::new(), topics: Vec::new() }
    }

    /// The snapshot in canonical order: the same brokers, groups and topics,
    /// with every collection sorted as the contract of the fetcher demands.
    pub fn canonicalize(self) -> (r: ClusterMetadata)
        ensures
            r.canonical(),
            r.brokers@.to_multiset() == self.brokers@.to_multiset(),
            r.groups@.to_multiset() == self.groups@.to_multiset(),
            exists|mid: Seq<TopicMetadata>|
                #[trigger] topics_canonicalized(self.topics@, mid, r.topics@),
    {
        let ghost orig_topics = self.topics@;
        let brokers = sort_vec(self.brokers);
        let groups = sort_vec(self.groups);
        let mut rest = self.topics;
        let mut mid: Vec<TopicMetadata> = Vec::new();
        while rest.len() > 0
            invariant
                mid@.len() + rest@.len() == orig_topics.len(),
                rest@ == orig_topics.skip(mid@.len() as int),
                forall|j: int|
                    0 <= j < mid@.len() ==> #[trigger] topic_canonicalized(
                        orig_topics[j],
                        mid@[j],
                    ),
            decreases rest@.len(),
        {
            let ghost k = mid@.len() as int;
            let t = rest.remove(0);
            proof {
                assert(t == orig_topics.skip(k)[0]);
                assert(orig_topics.skip(k)[0] == orig_topics[k]);
                assert(orig_topics.skip(k).remove(0) =~= orig_topics.skip(k + 1));
            }
            let sorted_t = TopicMetadata { name: t.name, partitions: sort_vec(t.partitions) };
            mid.push(sorted_t);
        }
        proof {
            assert(mid@.len() == orig_topics.len());
        }
        let ghost mid_view = mid@;
        let topics = sort_vec(mid);
        proof {
            assert(topics_canonicalized(orig_topics, mid_view, topics@));
        }
        let r = ClusterMetadata { brokers, groups, topics };
        proof {
            assert forall|i: int|
                0 <= i < r.topics@.len() implies #[trigger] canonical_topic(r.topics@[i]) by {
                vstd::seq_lib::to_multiset_contains(mid_view, r.topics@[i]);
                vstd::seq_lib::to_multiset_contains(r.topics@, r.topics@[i]);
                assert(r.topics@.contains(r.topics@[i]));
                assert(mid_view.contains(r.topics@[i]));
                let j = choose|j: int| 0 <= j < mid_view.len() && mid_view[j] == r.topics@[i];
                assert(topic_canonicalized(orig_topics[j], mid_view[j]));
            }
        }
        r
    }
}

} // verus!
