//! Topic subscription records.

use vstd::prelude::*;
use crate::config::{ConfigMap, clone_config};
use crate::time::now_millis;

verus! {

/// Mathematical content of a [`Subscription`] record.
pub struct SubscriptionV {
    pub id: int,
    pub cluster_id: int,
    pub topic_name: Seq<char>,
    pub config: Seq<(String, String)>,
    pub created_at: int,
    pub updated_at: int,
}

impl SubscriptionV {
    /// `self` and `other` agree on every field except possibly `id`.
    pub open spec fn same_except_id(self, other: SubscriptionV) -> bool {
        &&& self.cluster_id == other.cluster_id
        &&& self.topic_name == other.topic_name
        &&& self.config == other.config
        &&& self.created_at == other.created_at
        &&& self.updated_at == other.updated_at
    }
}

/// An operator's declaration of interest in one topic within a cluster.
pub struct Subscription {
    /// The unique identifier of the subscription.
    pub id: i64,
    /// The cluster the subscription refers to; must resolve to an existing
    /// cluster when the subscription is created.
    pub cluster_id: i64,
    /// The topic name for the subscription.
    pub topic_name: String,
    /// A key/value pair collection of topic config options.
    pub config: ConfigMap,
    /// The point in time, in UTC epoch milliseconds, when the subscription
    /// was created.
    pub created_at: i64,
    /// The point in time, in UTC epoch milliseconds, when the subscription
    /// was modified.
    pub updated_at: i64,
}

impl View for Subscription {
    type V = SubscriptionV;

    open spec fn view(&self) -> SubscriptionV {
        SubscriptionV {
            id: self.id as int,
            cluster_id: self.cluster_id as int,
            topic_name: self.topic_name@,
            config: self.config@,
            created_at: self.created_at as int,
            updated_at: self.updated_at as int,
        }
    }
}

impl Subscription {
    /// A new record stamped with the current time; a missing id is recorded
    /// as zero until the store assigns one.
    pub fn new(id: Option<i64>, cluster_id: i64, topic_name: String, config: ConfigMap) -> (r:
        Subscription)
        ensures
            r.id == (match id {
                Some(v) => v,
                None => 0,
            }),
            r.cluster_id == cluster_id,
            r.topic_name@ == topic_name@,
            r.config@ == config@,
            r.created_at == r.updated_at,
            r.created_at >= 0,
    {
        let now = now_millis();
        Subscription {
            id: match id {
                Some(v) => v,
                None => 0,
            },
            cluster_id,
            topic_name,
            config,
            created_at: now,
            updated_at: now,
        }
    }

    /// A record rebuilt from persisted fields.
    pub fn init(
        id: i64,
        cluster_id: i64,
        topic_name: String,
        config: ConfigMap,
        created_at: i64,
        updated_at: i64,
    ) -> (r: Subscription)
        ensures
            r@ == (SubscriptionV {
                id: id as int,
                cluster_id: cluster_id as int,
                topic_name: topic_name@,
                config: config@,
                created_at: created_at as int,
                updated_at: updated_at as int,
            }),
    {
        Subscription { id, cluster_id, topic_name, config, created_at, updated_at }
    }

    /// The same record under a newly assigned id.
    pub fn with_id(self, id: i64) -> (r: Subscription)
        ensures
            r.id == id,
            r@.same_except_id(self@),
    {
        Subscription { id, ..self }
    }
}

impl Clone for Subscription {
    /// A copy with the same content as the original.
    fn clone(&self) -> (r: Subscription)
        ensures
            r@ == self@,
    {
        Subscription {
            id: self.id,
            cluster_id: self.cluster_id,
            topic_name: self.topic_name.clone(),
            config: clone_config(&self.config),
            created_at: self.created_at,
            updated_at: self.updated_at,
        }
    }
}

} // verus!
