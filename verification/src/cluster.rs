//! Monitored cluster records.

use vstd::prelude::*;
use crate::config::{ConfigMap, clone_config};
use crate::time::now_millis;

verus! {

/// The kind of streaming system a cluster entry describes.
#[derive(Clone, Copy, Debug, PartialEq, Eq, Structural)]
pub enum Kind {
    Unknown,
    Kafka,
}

impl Kind {
    /// Wire name of the kind.
    pub fn to_str(&self) -> (r: &'static str)
        ensures
            *self is Kafka ==> r@ == "KAFKA"@,
            !(*self is Kafka) ==> r@ == "UNKNOWN"@,
    {
        match self {
            Kind::Kafka => "KAFKA",
            _ => "UNKNOWN",
        }
    }

    /// Numeric code of the kind, as persisted.
    pub fn code(&self) -> (r: i32)
        ensures
            r == self.spec_code(),
    {
        match self {
            Kind::Unknown => 0,
            Kind::Kafka => 1,
        }
    }

    /// Numeric code of the kind.
    pub open spec fn spec_code(&self) -> i32 {
        match self {
            Kind::Unknown => 0,
            Kind::Kafka => 1,
        }
    }

    /// The kind a persisted code denotes, if any.
    pub fn from_code(v: i32) -> (r: Result<Kind, ()>)
        ensures
            v == 0 ==> r == Result::<Kind, ()>::Ok(Kind::Unknown),
            v == 1 ==> r == Result::<Kind, ()>::Ok(Kind::Kafka),
            v != 0 && v != 1 ==> r is Err,
    {
        match v {
            0 => Ok(Kind::Unknown),
            1 => Ok(Kind::Kafka),
            _ => Err(()),
        }
    }
}

/// Mathematical content of a [`Cluster`] record.
pub struct ClusterV {
    pub id: int,
    pub kind: Kind,
    pub name: Seq<char>,
    pub config: Seq<(String, String)>,
    pub created_at: int,
    pub updated_at: int,
}

impl ClusterV {
    /// `self` and `other` agree on every field except possibly `id`.
    pub open spec fn same_except_id(self, other: ClusterV) -> bool {
        &&& self.kind == other.kind
        &&& self.name == other.name
        &&& self.config == other.config
        &&& self.created_at == other.created_at
        &&& self.updated_at == other.updated_at
    }
}

/// A monitored external streaming system instance.
pub struct Cluster {
    /// The id of the cluster entry; positive once persisted.
    pub id: i64,
    /// The kind of cluster entry.
    pub kind: Kind,
    /// Cluster name.
    pub name: String,
    /// A key/value pair collection of cluster config options.
    pub config: ConfigMap,
    /// The point in time, in UTC epoch milliseconds, when the cluster was
    /// created.
    pub created_at: i64,
    /// The point in time, in UTC epoch milliseconds, when the cluster was
    /// modified.
    pub updated_at: i64,
}

impl View for Cluster {
    type V = ClusterV;

    open spec fn view(&self) -> ClusterV {
        ClusterV {
            id: self.id as int,
            kind: self.kind,
            name: self.name@,
            config: self.config@,
            created_at: self.created_at as int,
            updated_at: self.updated_at as int,
        }
    }
}

impl Cluster {
    /// A new record stamped with the current time; a missing id is recorded
    /// as zero until the store assigns one.
    pub fn new(id: Option<i64>, kind: Kind, name: String, config: ConfigMap) -> (r: Cluster)
        ensures
            r.id == (match id {
                Some(v) => v,
                None => 0,
            }),
            r.kind == kind,
            r.name@ == name@,
            r.config@ == config@,
            r.created_at == r.updated_at,
            r.created_at >= 0,
    {
        let now = now_millis();
        Cluster {
            id: match id {
                Some(v) => v,
                None => 0,
            },
            kind,
            name,
            config,
            created_at: now,
            updated_at: now,
        }
    }

    /// A record rebuilt from persisted fields.
    pub fn init(
        id: i64,
        kind: Kind,
        name: String,
        config: ConfigMap,
        created_at: i64,
        updated_at: i64,
    ) -> (r: Cluster)
        ensures
            r@ == (ClusterV {
                id: id as int,
                kind,
                name: name@,
                config: config@,
                created_at: created_at as int,
                updated_at: updated_at as int,
            }),
    {
        Cluster { id, kind, name, config, created_at, updated_at }
    }

    /// The same record under a newly assigned id.
    pub fn with_id(self, id: i64) -> (r: Cluster)
        ensures
            r.id == id,
            r@.same_except_id(self@),
    {
        Cluster { id, ..self }
    }
}

impl Clone for Cluster {
    /// A copy with the same content as the original.
    fn clone(&self) -> (r: Cluster)
        ensures
            r@ == self@,
    {
        Cluster {
            id: self.id,
            kind: self.kind,
            name: self.name.clone(),
            config: clone_config(&self.config),
            created_at: self.created_at,
            updated_at: self.updated_at,
        }
    }
}

} // verus!
