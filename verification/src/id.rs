//! A 64-bit identifier source for stored entities: strictly increasing
//! within an instance, and collision-free across instances configured with
//! distinct `(datacenter, worker)` pairs.
//!
//! An id packs `timestamp | datacenter | worker | sequence` into the lower
//! 63 bits: 41 bits of epoch milliseconds, 5 bits each of datacenter and
//! worker, and a 12-bit per-millisecond sequence.

use vstd::prelude::*;

verus! {

/// Upper bound (exclusive) of the 41-bit millisecond timestamp field.
pub const TS_LIMIT: u64 = 0x200_0000_0000;

/// Upper bound (exclusive) of the 12-bit per-millisecond sequence field.
pub const SEQ_LIMIT: u64 = 0x1000;

/// Upper bound (exclusive) of the 5-bit datacenter and worker fields.
pub const NODE_LIMIT: u64 = 0x20;

/// The largest identifier the watermark can be raised beyond directly;
/// above it the timestamp field would overflow.
pub const MAX_ADVANCE_ID: i64 = 0x7FFF_FFFF_FFBF_FFFF;

/// The value an id's fields pack to.
pub open spec fn spec_pack(ms: int, datacenter: int, worker: int, sequence: int) -> int {
    ms * 0x400000 + datacenter * 0x20000 + worker * 0x1000 + sequence
}

/// A monotonic id source.  The state remembers the last timestamp and
/// sequence issued, so that every id exceeds its predecessor even when the
/// clock stalls or steps backwards.
pub struct Generator {
    datacenter_id: u64,
    worker_id: u64,
    last_ms: u64,
    sequence: u64,
}

impl Generator {
    #[verifier::type_invariant]
    spec fn wf(&self) -> bool {
        &&& self.datacenter_id < NODE_LIMIT
        &&& self.worker_id < NODE_LIMIT
        &&& self.last_ms < TS_LIMIT
        &&& self.sequence < SEQ_LIMIT
    }

    /// The pack of the generator's current position: every id issued later
    /// is greater than this.
    pub closed spec fn watermark(&self) -> int {
        spec_pack(
            self.last_ms as int,
            self.datacenter_id as int,
            self.worker_id as int,
            self.sequence as int,
        )
    }

    /// The node pair the generator was configured with.
    pub closed spec fn node(&self) -> (int, int) {
        (self.datacenter_id as int, self.worker_id as int)
    }

    /// The millisecond position the generator has reached; ids can be
    /// issued while it is below the timestamp field's limit.
    pub closed spec fn position_ms(&self) -> int {
        self.last_ms as int
    }

    /// A generator for the given node pair, with nothing issued yet.
    pub fn new(datacenter_id: u64, worker_id: u64) -> (r: Generator)
        requires
            datacenter_id < NODE_LIMIT,
            worker_id < NODE_LIMIT,
        ensures
            r.node() == (datacenter_id as int, worker_id as int),
            r.watermark() == spec_pack(0, datacenter_id as int, worker_id as int, 0),
            r.position_ms() == 0,
    {
        Generator { datacenter_id, worker_id, last_ms: 0, sequence: 0 }
    }

    /// The next identifier, for the clock reading `now_ms`.  Succeeds as
    /// long as the 41-bit timestamp field is not exhausted; the id is
    /// positive, strictly greater than every id issued before on this
    /// instance, and carries the instance's node pair in its node fields.
    pub fn next_id(&mut self, now_ms: u64) -> (r: Option<i64>)
        ensures
            final(self).node() == old(self).node(),
            match r {
                Some(id) => {
                    &&& id > 0
                    &&& id > old(self).watermark()
                    &&& id == final(self).watermark()
                },
                None => final(self).watermark() == old(self).watermark(),
            },
            now_ms < TS_LIMIT - 1 && old(self).position_ms() < TS_LIMIT - 1 ==> r is Some,
    {
        proof {
            use_type_invariant(&*self);
        }
        let base = if now_ms > self.last_ms {
            now_ms
        } else {
            self.last_ms
        };
        let (ms, sequence) = if base == self.last_ms {
            if self.sequence + 1 < SEQ_LIMIT {
                (base, self.sequence + 1)
            } else {
                (base + 1, 0)
            }
        } else {
            (base, 0)
        };
        if ms >= TS_LIMIT {
            return None;
        }
        self.last_ms = ms;
        self.sequence = sequence;
        let id = ms * 0x400000 + self.datacenter_id * 0x20000 + self.worker_id * 0x1000
            + sequence;
        proof {
            assert(id < 0x8000_0000_0000_0000u64) by {
                assert(ms * 0x400000 <= (TS_LIMIT - 1) * 0x400000);
            }
        }
        Some(id as i64)
    }

    /// Raise the watermark to at least `id`, so that every identifier
    /// issued later exceeds `id` as well.  Reports success; it fails, with
    /// the state untouched, only when `id` sits beyond the reach of the
    /// timestamp field.
    pub fn advance_past(&mut self, id: i64) -> (r: bool)
        ensures
            final(self).node() == old(self).node(),
            r <==> (id as int <= old(self).watermark() || id <= MAX_ADVANCE_ID),
            r ==> final(self).watermark() >= id,
            final(self).watermark() >= old(self).watermark(),
            !r ==> final(self).watermark() == old(self).watermark() && final(self).position_ms()
                == old(self).position_ms(),
    {
        proof {
            use_type_invariant(&*self);
        }
        let current = self.last_ms * 0x400000 + self.datacenter_id * 0x20000 + self.worker_id
            * 0x1000 + self.sequence;
        proof {
            assert(current < 0x8000_0000_0000_0000u64) by {
                assert(self.last_ms * 0x400000 <= (TS_LIMIT - 1) * 0x400000);
            }
            assert(current as int == self.watermark());
        }
        if id <= 0 {
            return true;
        }
        if (id as u64) <= current {
            return true;
        }
        if id > MAX_ADVANCE_ID {
            return false;
        }
        let ms = (id as u64) / 0x400000 + 1;
        proof {
            assert((id as u64) / 0x400000 <= (MAX_ADVANCE_ID as u64) / 0x400000) by (
            nonlinear_arith)
                requires
                    0 < id as u64 <= MAX_ADVANCE_ID as u64,
            ;
            assert(ms < TS_LIMIT);
        }
        self.last_ms = ms;
        self.sequence = 0;
        proof {
            assert(ms * 0x400000 > id) by (nonlinear_arith)
                requires
                    ms == (id as u64) / 0x400000 + 1,
                    id > 0,
                    ms < TS_LIMIT,
            ;
            assert(self.watermark() >= ms * 0x400000);
        }
        true
    }
}

/// Ids issued by two instances with distinct node pairs never collide: the
/// node fields of the pack differ.
pub proof fn lemma_distinct_nodes_distinct_ids(
    ms1: int,
    dc1: int,
    w1: int,
    s1: int,
    ms2: int,
    dc2: int,
    w2: int,
    s2: int,
)
    requires
        0 <= dc1 < NODE_LIMIT,
        0 <= w1 < NODE_LIMIT,
        0 <= s1 < SEQ_LIMIT,
        0 <= dc2 < NODE_LIMIT,
        0 <= w2 < NODE_LIMIT,
        0 <= s2 < SEQ_LIMIT,
        (dc1, w1) != (dc2, w2),
    ensures
        spec_pack(ms1, dc1, w1, s1) != spec_pack(ms2, dc2, w2, s2),
{
    if spec_pack(ms1, dc1, w1, s1) == spec_pack(ms2, dc2, w2, s2) {
        let r1 = dc1 * 0x20000 + w1 * 0x1000 + s1;
        let r2 = dc2 * 0x20000 + w2 * 0x1000 + s2;
        assert(0 <= r1 < 0x400000);
        assert(0 <= r2 < 0x400000);
        assert((ms1 - ms2) * 0x400000 == r2 - r1) by (nonlinear_arith)
            requires
                ms1 * 0x400000 + r1 == ms2 * 0x400000 + r2,
        ;
        assert(ms1 == ms2) by (nonlinear_arith)
            requires
                (ms1 - ms2) * 0x400000 == r2 - r1,
                -0x400000 < r2 - r1 < 0x400000,
        ;
        assert(r1 == r2);
        assert((dc1 - dc2) * 0x20000 == (w2 * 0x1000 + s2) - (w1 * 0x1000 + s1));
        assert(dc1 == dc2) by (nonlinear_arith)
            requires
                (dc1 - dc2) * 0x20000 == (w2 * 0x1000 + s2) - (w1 * 0x1000 + s1),
                0 <= w1 * 0x1000 + s1 < 0x20000,
                0 <= w2 * 0x1000 + s2 < 0x20000,
        ;
        assert(w1 * 0x1000 + s1 == w2 * 0x1000 + s2);
        assert(w1 == w2) by (nonlinear_arith)
            requires
                w1 * 0x1000 + s1 == w2 * 0x1000 + s2,
                0 <= s1 < 0x1000,
                0 <= s2 < 0x1000,
        ;
        assert(false);
    }
}

} // verus!
