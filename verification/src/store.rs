//! Persistence for cluster and subscription records: an in-memory backend
//! that satisfies the store contract the core expects — `insert` assigns a
//! positive id from the id generator, `get` distinguishes absence from
//! error, and `list` returns records in no particular order.

use vstd::prelude::*;
use crate::cluster::{Cluster, ClusterV};
use crate::error::Error;
use crate::id::{Generator, MAX_ADVANCE_ID, TS_LIMIT};
use crate::idmap::IdMap;
use crate::subscription::{Subscription, SubscriptionV};
use crate::time::now_millis;

verus! {

/// The most records an unfiltered cluster listing returns.
pub const LIST_CAP: usize = 100;

/// A store of cluster records keyed by their ids.
pub struct MemoryClusterStore {
    records: IdMap<Cluster>,
    generator: Generator,
}

impl View for MemoryClusterStore {
    type V = Map<i64, ClusterV>;

    closed spec fn view(&self) -> Map<i64, ClusterV> {
        self.records@.map_values(|c: Cluster| c@)
    }
}

impl MemoryClusterStore {
    /// Every stored record carries the id it is keyed by, and no stored id
    /// sits above the generator's watermark — a freshly assigned id can
    /// therefore never collide with a stored one.
    pub closed spec fn wf(&self) -> bool {
        &&& forall|k: i64| self@.dom().contains(k) ==> (#[trigger] self@[k]).id == k
        &&& forall|k: i64| #[trigger] self@.dom().contains(k) ==> k <= self.generator.watermark()
    }

    /// The id source's position: every id assigned later lies above it.
    pub closed spec fn watermark(&self) -> int {
        self.generator.watermark()
    }

    /// Whether the id source can still assign fresh ids.
    pub closed spec fn can_assign_id(&self) -> bool {
        self.generator.position_ms() < TS_LIMIT - 1
    }

    /// An empty store drawing ids from the given generator.
    pub fn new(generator: Generator) -> (r: MemoryClusterStore)
        ensures
            r.wf(),
            r@ == Map::<i64, ClusterV>::empty(),
            r.watermark() == generator.watermark(),
            r.can_assign_id() == (generator.position_ms() < TS_LIMIT - 1),
    {
        let r = MemoryClusterStore { records: IdMap::new(), generator };
        proof {
            assert(r@ =~= Map::<i64, ClusterV>::empty());
        }
        r
    }

    /// The record with this id, if one is persisted.  Absence is
    /// distinguishable from an error: this cannot fail.
    pub fn get(&self, id: i64) -> (r: Option<Cluster>)
        ensures
            match r {
                Some(c) => self@.dom().contains(id) && c@ == self@[id],
                None => !self@.dom().contains(id),
            },
    {
        match self.records.get(id) {
            Some(c) => Some(c.clone()),
            None => None,
        }
    }

    /// Persist a new record: an id is assigned from the generator, the
    /// record is stored under it, and the id is returned.  The assigned id
    /// is fresh — above the watermark, so held by no stored record — and
    /// all other fields are preserved, so a `get` of the returned id reads
    /// the record back intact.  Succeeds as long as ids can still be
    /// assigned; the failure leaves the store untouched.
    pub fn insert(&mut self, c: Cluster) -> (r: Result<i64, Error>)
        requires
            old(self).wf(),
        ensures
            final(self).wf(),
            old(self).can_assign_id() ==> r is Ok,
            match r {
                Ok(id) => {
                    &&& id > 0
                    &&& id > old(self).watermark()
                    &&& !old(self)@.dom().contains(id)
                    &&& final(self).watermark() == id
                    &&& final(self)@ == old(self)@.insert(id, final(self)@[id])
                    &&& final(self)@.dom().contains(id)
                    &&& final(self)@[id].same_except_id(c@)
                    &&& final(self)@[id].id == id
                },
                Err(_) => final(self)@ == old(self)@ && final(self).watermark() == old(
                    self,
                ).watermark(),
            },
    {
        let now = now_millis();
        let clock = if now >= 0 {
            now as u64
        } else {
            0
        };
        let bounded = if clock < TS_LIMIT - 1 {
            clock
        } else {
            TS_LIMIT - 2
        };
        match self.generator.next_id(bounded) {
            Some(id) => {
                proof {
                    assert(!old(self)@.dom().contains(id));
                }
                let record = c.with_id(id);
                let ghost rv = record@;
                self.records.insert(id, record);
                proof {
                    assert(final(self)@[id] == rv);
                    assert(final(self)@ =~= old(self)@.insert(id, final(self)@[id]));
                    assert forall|k: i64| #[trigger] final(self)@.dom().contains(k) implies k
                        <= self.generator.watermark() by {
                        if k != id {
                            assert(old(self)@.dom().contains(k));
                        }
                    }
                }
                Ok(id)
            },
            None => {
                let mut reason = String::new();
                reason.append("identifier space exhausted");
                Err(Error::Io(reason))
            },
        }
    }

    /// Persist `c` under its own id, adding or replacing, and return the
    /// id.  The id source is advanced past the id so later inserts stay
    /// fresh; only an id beyond the id space's reach is refused, with the
    /// store untouched.
    pub fn update(&mut self, c: Cluster) -> (r: Result<i64, Error>)
        requires
            old(self).wf(),
        ensures
            final(self).wf(),
            r is Ok <==> (c.id <= old(self).watermark() || c.id <= MAX_ADVANCE_ID),
            r matches Ok(id) ==> {
                &&& id == c.id
                &&& final(self)@ == old(self)@.insert(c.id, c@)
                &&& final(self).watermark() >= old(self).watermark()
            },
            r is Err ==> final(self)@ == old(self)@ && final(self).watermark() == old(
                self,
            ).watermark(),
    {
        let id = c.id;
        if !self.generator.advance_past(id) {
            let mut reason = String::new();
            reason.append("identifier out of range");
            proof {
                assert forall|k: i64| #[trigger] final(self)@.dom().contains(k) implies k
                    <= self.generator.watermark() by {
                    assert(old(self)@.dom().contains(k));
                }
            }
            return Err(Error::Io(reason));
        }
        let ghost cv = c@;
        self.records.insert(id, c);
        proof {
            assert(final(self)@ =~= old(self)@.insert(id, cv));
            assert forall|k: i64| #[trigger] final(self)@.dom().contains(k) implies k
                <= self.generator.watermark() by {
                if k != id {
                    assert(old(self)@.dom().contains(k));
                }
            }
        }
        Ok(id)
    }

    /// Delete the record with this id, if any, and return the id.
    pub fn remove(&mut self, id: i64) -> (r: i64)
        requires
            old(self).wf(),
        ensures
            final(self).wf(),
            final(self)@ == old(self)@.remove(id),
            final(self).watermark() == old(self).watermark(),
            r == id,
    {
        let _ = self.records.remove(id);
        proof {
            assert(final(self)@ =~= old(self)@.remove(id));
            assert(forall|k: i64| #[trigger] final(self)@.dom().contains(k) ==> old(
                self,
            )@.dom().contains(k));
        }
        id
    }

    /// The persisted records: with a filter, those of the listed ids that
    /// exist; without one, all of them, capped at the listing limit.  Order
    /// is unspecified and callers must not rely on it.
    pub fn list(&self, filter: Option<&Vec<i64>>) -> (r: Vec<Cluster>)
        requires
            self.wf(),
        ensures
            forall|j: int|
                0 <= j < r@.len() ==> {
                    &&& self@.dom().contains((#[trigger] r@[j]).id)
                    &&& r@[j]@ == self@[r@[j].id]
                },
            match filter {
                Some(ids) => {
                    &&& forall|j: int|
                        0 <= j < r@.len() ==> ids@.contains((#[trigger] r@[j]).id)
                    &&& forall|x: int|
                        #![trigger ids@[x]]
                        0 <= x < ids@.len() && self@.dom().contains(ids@[x]) ==> exists|j: int|
                            0 <= j < r@.len() && (#[trigger] r@[j]).id == ids@[x]
                },
                None => {
                    &&& r@.len() <= LIST_CAP
                    &&& self@.len() <= LIST_CAP ==> forall|k: i64|
                        self@.dom().contains(k) ==> exists|j: int|
                            0 <= j < r@.len() && (#[trigger] r@[j]).id == k
                },
            },
    {
        let mut out: Vec<Cluster> = Vec::new();
        match filter {
            Some(ids) => {
                let n = ids.len();
                let mut i: usize = 0;
                while i < n
                    invariant
                        i <= n,
                        n == ids@.len(),
                        self.wf(),
                        forall|j: int|
                            0 <= j < out@.len() ==> {
                                &&& self@.dom().contains((#[trigger] out@[j]).id)
                                &&& out@[j]@ == self@[out@[j].id]
                                &&& ids@.contains(out@[j].id)
                            },
                        forall|x: int|
                            #![trigger ids@[x]]
                            0 <= x < i && self@.dom().contains(ids@[x]) ==> exists|j: int|
                                0 <= j < out@.len() && (#[trigger] out@[j]).id == ids@[x],
                    decreases n - i,
                {
                    let id = ids[i];
                    let ghost pre_out = out@;
                    proof {
                        assert(ids@.contains(ids@[i as int]));
                    }
                    match self.records.get(id) {
                        Some(c) => {
                            let record = c.clone();
                            proof {
                                assert(self@[id] == c@);
                                assert(record.id == id) by {
                                    assert(self@[id].id == id);
                                }
                            }
                            out.push(record);
                            proof {
                                assert(out@[pre_out.len() as int].id == id);
                            }
                        },
                        None => {},
                    }
                    proof {
                        assert forall|x: int|
                            #![trigger ids@[x]]
                            0 <= x < i + 1 && self@.dom().contains(ids@[x]) implies exists|j: int|
                            0 <= j < out@.len() && (#[trigger] out@[j]).id == ids@[x] by {
                            if x < i {
                                let j = choose|j: int|
                                    0 <= j < pre_out.len() && (#[trigger] pre_out[j]).id
                                        == ids@[x];
                                assert(out@[j].id == ids@[x]);
                            } else {
                                assert(out@[pre_out.len() as int].id == ids@[x]);
                            }
                        }
                    }
                    i = i + 1;
                }
                out
            },
            None => {
                proof {
                    assert(self@.dom() =~= self.records@.dom());
                }
                let keys = self.records.keys();
                let n = keys.len();
                let mut i: usize = 0;
                while i < n && i < LIST_CAP
                    invariant
                        i <= n,
                        n == keys@.len(),
                        i <= LIST_CAP,
                        self.wf(),
                        n == self@.len(),
                        keys@.no_duplicates(),
                        forall|k: i64| self@.dom().contains(k) <==> keys@.contains(k),
                        out@.len() == i,
                        forall|j: int|
                            0 <= j < out@.len() ==> {
                                &&& self@.dom().contains((#[trigger] out@[j]).id)
                                &&& out@[j]@ == self@[out@[j].id]
                                &&& out@[j].id == keys@[j]
                            },
                    decreases n - i,
                {
                    let id = keys[i];
                    proof {
                        assert(keys@.contains(keys@[i as int]));
                    }
                    match self.records.get(id) {
                        Some(c) => {
                            let record = c.clone();
                            proof {
                                assert(self@[id] == c@);
                                assert(record.id == id) by {
                                    assert(self@[id].id == id);
                                }
                            }
                            out.push(record);
                        },
                        None => {
                            proof {
                                assert(false);
                            }
                        },
                    }
                    i = i + 1;
                }
                proof {
                    if self@.len() <= LIST_CAP {
                        assert(i == n);
                        assert forall|k: i64| self@.dom().contains(k) implies exists|j: int|
                            0 <= j < out@.len() && (#[trigger] out@[j]).id == k by {
                            assert(keys@.contains(k));
                            let j = choose|j: int| 0 <= j < keys@.len() && keys@[j] == k;
                            assert(out@[j].id == k);
                        }
                    }
                }
                out
            },
        }
    }
}

/// A store of subscription records, compound-keyed by `(cluster_id, id)`
/// with `id` unique on its own.
pub struct MemorySubscriptionStore {
    records: IdMap<Subscription>,
    generator: Generator,
}

impl View for MemorySubscriptionStore {
    type V = Map<i64, SubscriptionV>;

    closed spec fn view(&self) -> Map<i64, SubscriptionV> {
        self.records@.map_values(|s: Subscription| s@)
    }
}

impl MemorySubscriptionStore {
    /// Every stored record carries the id it is keyed by, and no stored id
    /// sits above the generator's watermark — a freshly assigned id can
    /// therefore never collide with a stored one.
    pub closed spec fn wf(&self) -> bool {
        &&& forall|k: i64| self@.dom().contains(k) ==> (#[trigger] self@[k]).id == k
        &&& forall|k: i64| #[trigger] self@.dom().contains(k) ==> k <= self.generator.watermark()
    }

    /// The id source's position: every id assigned later lies above it.
    pub closed spec fn watermark(&self) -> int {
        self.generator.watermark()
    }

    /// Whether the id source can still assign fresh ids.
    pub closed spec fn can_assign_id(&self) -> bool {
        self.generator.position_ms() < TS_LIMIT - 1
    }

    /// An empty store drawing ids from the given generator.
    pub fn new(generator: Generator) -> (r: MemorySubscriptionStore)
        ensures
            r.wf(),
            r@ == Map::<i64, SubscriptionV>::empty(),
            r.watermark() == generator.watermark(),
            r.can_assign_id() == (generator.position_ms() < TS_LIMIT - 1),
    {
        let r = MemorySubscriptionStore { records: IdMap::new(), generator };
        proof {
            assert(r@ =~= Map::<i64, SubscriptionV>::empty());
        }
        r
    }

    /// The record at `(cluster_id, id)`, if one is persisted: the id must
    /// exist and the record must belong to the given cluster.
    pub fn get(&self, cluster_id: i64, id: i64) -> (r: Option<Subscription>)
        ensures
            match r {
                Some(s) => self@.dom().contains(id) && s@ == self@[id] && s@.cluster_id
                    == cluster_id as int,
                None => !self@.dom().contains(id) || self@[id].cluster_id != cluster_id as int,
            },
    {
        match self.records.get(id) {
            Some(s) => {
                if s.cluster_id == cluster_id {
                    Some(s.clone())
                } else {
                    None
                }
            },
            None => None,
        }
    }

    /// Persist a new record: an id is assigned from the generator, the
    /// record is stored under it, and the id is returned.  The assigned id
    /// is fresh — above the watermark, so held by no stored record — and
    /// all other fields are preserved, so a `get` of the returned id reads
    /// the record back intact.  Succeeds as long as ids can still be
    /// assigned; the failure leaves the store untouched.
    pub fn insert(&mut self, s: Subscription) -> (r: Result<i64, Error>)
        requires
            old(self).wf(),
        ensures
            final(self).wf(),
            old(self).can_assign_id() ==> r is Ok,
            match r {
                Ok(id) => {
                    &&& id > 0
                    &&& id > old(self).watermark()
                    &&& !old(self)@.dom().contains(id)
                    &&& final(self).watermark() == id
                    &&& final(self)@ == old(self)@.insert(id, final(self)@[id])
                    &&& final(self)@.dom().contains(id)
                    &&& final(self)@[id].same_except_id(s@)
                    &&& final(self)@[id].id == id
                },
                Err(_) => final(self)@ == old(self)@ && final(self).watermark() == old(
                    self,
                ).watermark(),
            },
    {
        let now = now_millis();
        let clock = if now >= 0 {
            now as u64
        } else {
            0
        };
        let bounded = if clock < TS_LIMIT - 1 {
            clock
        } else {
            TS_LIMIT - 2
        };
        match self.generator.next_id(bounded) {
            Some(id) => {
                proof {
                    assert(!old(self)@.dom().contains(id));
                }
                let record = s.with_id(id);
                let ghost rv = record@;
                self.records.insert(id, record);
                proof {
                    assert(final(self)@[id] == rv);
                    assert(final(self)@ =~= old(self)@.insert(id, final(self)@[id]));
                    assert forall|k: i64| final(self)@.dom().contains(k) implies (
                    #[trigger] final(self)@[k]).id == k by {
                        if k != id {
                            assert(final(self)@[k] == old(self)@[k]);
                        }
                    }
                    assert forall|k: i64| #[trigger] final(self)@.dom().contains(k) implies k
                        <= self.generator.watermark() by {
                        if k != id {
                            assert(old(self)@.dom().contains(k));
                        }
                    }
                }
                Ok(id)
            },
            None => {
                let mut reason = String::new();
                reason.append("identifier space exhausted");
                proof {
                    assert forall|k: i64| final(self)@.dom().contains(k) implies (
                    #[trigger] final(self)@[k]).id == k by {
                        assert(final(self)@[k] == old(self)@[k]);
                    }
                    assert forall|k: i64| #[trigger] final(self)@.dom().contains(k) implies k
                        <= self.generator.watermark() by {
                        assert(old(self)@.dom().contains(k));
                    }
                }
                Err(Error::Io(reason))
            },
        }
    }

    /// Persist `s` under its own id, adding or replacing, and return the
    /// id.  The id source is advanced past the id so later inserts stay
    /// fresh; only an id beyond the id space's reach is refused, with the
    /// store untouched.
    pub fn update(&mut self, s: Subscription) -> (r: Result<i64, Error>)
        requires
            old(self).wf(),
        ensures
            final(self).wf(),
            r is Ok <==> (s.id <= old(self).watermark() || s.id <= MAX_ADVANCE_ID),
            r matches Ok(id) ==> {
                &&& id == s.id
                &&& final(self)@ == old(self)@.insert(s.id, s@)
                &&& final(self).watermark() >= old(self).watermark()
            },
            r is Err ==> final(self)@ == old(self)@ && final(self).watermark() == old(
                self,
            ).watermark(),
    {
        let id = s.id;
        if !self.generator.advance_past(id) {
            let mut reason = String::new();
            reason.append("identifier out of range");
            proof {
                assert forall|k: i64| final(self)@.dom().contains(k) implies (
                #[trigger] final(self)@[k]).id == k by {
                    assert(final(self)@[k] == old(self)@[k]);
                }
                assert forall|k: i64| #[trigger] final(self)@.dom().contains(k) implies k
                    <= self.generator.watermark() by {
                    assert(old(self)@.dom().contains(k));
                }
            }
            return Err(Error::Io(reason));
        }
        let ghost sv = s@;
        self.records.insert(id, s);
        proof {
            assert(final(self)@ =~= old(self)@.insert(id, sv));
            assert forall|k: i64| #[trigger] final(self)@.dom().contains(k) implies k
                <= self.generator.watermark() by {
                if k != id {
                    assert(old(self)@.dom().contains(k));
                }
            }
        }
        Ok(id)
    }

    /// Delete the record at `(cluster_id, id)`, if it is that cluster's,
    /// and return the id.
    pub fn remove(&mut self, cluster_id: i64, id: i64) -> (r: i64)
        requires
            old(self).wf(),
        ensures
            final(self).wf(),
            old(self)@.dom().contains(id) && old(self)@[id].cluster_id == cluster_id as int
                ==> final(self)@ == old(self)@.remove(id),
            !(old(self)@.dom().contains(id) && old(self)@[id].cluster_id == cluster_id as int)
                ==> final(self)@ == old(self)@,
            final(self).watermark() == old(self).watermark(),
            r == id,
    {
        let belongs = match self.records.get(id) {
            Some(s) => s.cluster_id == cluster_id,
            None => false,
        };
        if belongs {
            let _ = self.records.remove(id);
            proof {
                assert(final(self)@ =~= old(self)@.remove(id));
                assert(forall|k: i64| #[trigger] final(self)@.dom().contains(k) ==> old(
                    self,
                )@.dom().contains(k));
            }
        }
        id
    }

    /// The persisted records: with a cluster filter, those that belong to
    /// the cluster; without one, all of them.  Order is unspecified and
    /// callers must not rely on it.
    pub fn list(&self, cluster_id: Option<i64>) -> (r: Vec<Subscription>)
        requires
            self.wf(),
        ensures
            forall|j: int|
                0 <= j < r@.len() ==> {
                    &&& self@.dom().contains((#[trigger] r@[j]).id)
                    &&& r@[j]@ == self@[r@[j].id]
                    &&& spec_listed(self@[r@[j].id], cluster_id)
                },
            forall|a: int, b: int| 0 <= a < b < r@.len() ==> r@[a].id != r@[b].id,
            forall|k: i64|
                self@.dom().contains(k) && spec_listed(#[trigger] self@[k], cluster_id)
                    ==> exists|j: int| 0 <= j < r@.len() && (#[trigger] r@[j]).id == k,
    {
        let keys = self.records.keys();
        let n = keys.len();
        let mut out: Vec<Subscription> = Vec::new();
        let mut i: usize = 0;
        while i < n
            invariant
                i <= n,
                n == keys@.len(),
                self.wf(),
                keys@.no_duplicates(),
                forall|k: i64| self@.dom().contains(k) <==> keys@.contains(k),
                forall|j: int|
                    0 <= j < out@.len() ==> {
                        &&& self@.dom().contains((#[trigger] out@[j]).id)
                        &&& out@[j]@ == self@[out@[j].id]
                        &&& spec_listed(self@[out@[j].id], cluster_id)
                    },
                forall|j: int|
                    0 <= j < out@.len() ==> exists|x: int|
                        0 <= x < i && keys@[x] == (#[trigger] out@[j]).id,
                forall|a: int, b: int| 0 <= a < b < out@.len() ==> out@[a].id != out@[b].id,
                forall|x: int|
                    #![trigger keys@[x]]
                    0 <= x < i ==> (spec_listed(self@[keys@[x]], cluster_id) ==> exists|j: int|
                        0 <= j < out@.len() && (#[trigger] out@[j]).id == keys@[x]),
            decreases n - i,
        {
            let id = keys[i];
            let ghost pre_out = out@;
            proof {
                assert(keys@.contains(keys@[i as int]));
            }
            match self.records.get(id) {
                Some(s) => {
                    let keep = match cluster_id {
                        Some(cid) => s.cluster_id == cid,
                        None => true,
                    };
                    proof {
                        assert(self@[id] == s@);
                        assert(keep == spec_listed(self@[id], cluster_id));
                    }
                    if keep {
                        let record = s.clone();
                        proof {
                            assert(record.id == id) by {
                                assert(self@[id].id == id);
                            }
                            assert forall|a: int| 0 <= a < out@.len() implies (
                            #[trigger] out@[a]).id != id by {
                                let x = choose|x: int|
                                    0 <= x < i && keys@[x] == (#[trigger] out@[a]).id;
                                assert(keys@[x] != keys@[i as int]);
                            }
                        }
                        out.push(record);
                        proof {
                            assert(out@[pre_out.len() as int].id == id);
                        }
                    }
                },
                None => {
                    proof {
                        assert(false);
                    }
                },
            }
            proof {
                assert forall|x: int|
                    #![trigger keys@[x]]
                    0 <= x < i + 1 && spec_listed(self@[keys@[x]], cluster_id) implies exists|j: int|
                    0 <= j < out@.len() && (#[trigger] out@[j]).id == keys@[x] by {
                    if x < i {
                        let j = choose|j: int|
                            0 <= j < pre_out.len() && (#[trigger] pre_out[j]).id == keys@[x];
                        assert(out@[j].id == keys@[x]);
                    } else {
                        assert(out@[pre_out.len() as int].id == keys@[x]);
                    }
                }
            }
            i = i + 1;
        }
        proof {
            assert forall|k: i64|
                self@.dom().contains(k) && spec_listed(#[trigger] self@[k], cluster_id)
                implies exists|j: int| 0 <= j < out@.len() && (#[trigger] out@[j]).id == k by {
                assert(keys@.contains(k));
                let x = choose|x: int| 0 <= x < keys@.len() && keys@[x] == k;
                assert(spec_listed(self@[keys@[x]], cluster_id));
            }
        }
        out
    }
}

/// Persisting a new cluster record and reading the assigned id back gives
/// the record intact: every field survives the round trip, with only the id
/// replaced by the assigned value.  `insert` stores such a record and `get`
/// returns exactly what is stored.
pub proof fn lemma_cluster_round_trip(m: Map<i64, ClusterV>, id: i64, stored: ClusterV, c: ClusterV)
    requires
        stored.same_except_id(c),
        stored.id == id as int,
    ensures
        ({
            let persisted = m.insert(id, stored);
            &&& persisted.dom().contains(id)
            &&& persisted[id].same_except_id(c)
            &&& persisted[id].id == id
        }),
{
}

/// The subscription round trip, stated like the cluster one.
pub proof fn lemma_subscription_round_trip(
    m: Map<i64, SubscriptionV>,
    id: i64,
    stored: SubscriptionV,
    s: SubscriptionV,
)
    requires
        stored.same_except_id(s),
        stored.id == id as int,
    ensures
        ({
            let persisted = m.insert(id, stored);
            &&& persisted.dom().contains(id)
            &&& persisted[id].same_except_id(s)
            &&& persisted[id].id == id
        }),
{
}

/// Whether a record belongs in a listing filtered by `cluster_id`.
pub open spec fn spec_listed(s: SubscriptionV, cluster_id: Option<i64>) -> bool {
    match cluster_id {
        Some(cid) => s.cluster_id == cid as int,
        None => true,
    }
}

} // verus!
