//! A finite map keyed by 64-bit ids, backed by a vector of entries with
//! pairwise distinct keys.  The view is the mathematical `Map` the entries
//! denote.

use vstd::prelude::*;

verus! {

/// The keys of `s` are pairwise distinct.
pub open spec fn distinct_keys<V>(s: Seq<(i64, V)>) -> bool {
    forall|i: int, j: int| 0 <= i < j < s.len() ==> (#[trigger] s[i]).0 != (#[trigger] s[j]).0
}

/// The map an entry list denotes; later entries would win, but the lists
/// kept here have distinct keys.
pub open spec fn as_map<V>(s: Seq<(i64, V)>) -> Map<i64, V>
    decreases s.len(),
{
    if s.len() == 0 {
        Map::empty()
    } else {
        as_map(s.drop_last()).insert(s.last().0, s.last().1)
    }
}

/// A key is in the denoted map exactly when some entry carries it.
proof fn lemma_as_map_dom<V>(s: Seq<(i64, V)>, k: i64)
    ensures
        as_map(s).dom().contains(k) <==> exists|i: int| 0 <= i < s.len() && (#[trigger] s[i]).0 == k,
    decreases s.len(),
{
    if s.len() > 0 {
        lemma_as_map_dom(s.drop_last(), k);
        if s.last().0 == k {
            assert(s[s.len() - 1].0 == k);
        } else {
            assert forall|i: int| 0 <= i < s.len() && (#[trigger] s[i]).0 == k implies 0 <= i
                < s.len() - 1 && s.drop_last()[i].0 == k by {
                assert(i != s.len() - 1);
            }
        }
    }
}

/// With distinct keys, the entry at `i` gives the value the denoted map
/// holds at its key.
proof fn lemma_as_map_get<V>(s: Seq<(i64, V)>, i: int)
    requires
        distinct_keys(s),
        0 <= i < s.len(),
    ensures
        as_map(s).dom().contains(s[i].0),
        as_map(s)[s[i].0] == s[i].1,
    decreases s.len(),
{
    if i == s.len() - 1 {
    } else {
        assert(distinct_keys(s.drop_last()));
        lemma_as_map_get(s.drop_last(), i);
        assert(s[i].0 != s.last().0);
    }
}

/// With distinct keys, the denoted map has one element per entry.
proof fn lemma_as_map_len<V>(s: Seq<(i64, V)>)
    requires
        distinct_keys(s),
    ensures
        as_map(s).dom().finite(),
        as_map(s).len() == s.len(),
    decreases s.len(),
{
    if s.len() > 0 {
        assert(distinct_keys(s.drop_last()));
        lemma_as_map_len(s.drop_last());
        lemma_as_map_dom(s.drop_last(), s.last().0);
        assert(!as_map(s.drop_last()).dom().contains(s.last().0));
        vstd::set::axiom_set_insert_finite(as_map(s.drop_last()).dom(), s.last().0);
        vstd::set::axiom_set_insert_len(as_map(s.drop_last()).dom(), s.last().0);
    } else {
        broadcast use vstd::set::axiom_set_empty_finite, vstd::set::axiom_set_empty_len;

        assert(as_map(s).dom() =~= Set::<i64>::empty());
    }
}

/// With distinct keys, dropping the entry at `i` removes exactly its key
/// from the denoted map.
proof fn lemma_as_map_remove<V>(s: Seq<(i64, V)>, i: int)
    requires
        distinct_keys(s),
        0 <= i < s.len(),
    ensures
        as_map(s.remove(i)) == as_map(s).remove(s[i].0),
    decreases s.len(),
{
    let k = s[i].0;
    if i == s.len() - 1 {
        assert(s.remove(i) =~= s.drop_last());
        lemma_as_map_dom(s.drop_last(), k);
        assert(!as_map(s.drop_last()).dom().contains(k));
        assert(as_map(s).remove(k) =~= as_map(s.drop_last()));
    } else {
        let s0 = s.drop_last();
        assert(distinct_keys(s0));
        lemma_as_map_remove(s0, i);
        assert(s.remove(i).drop_last() =~= s0.remove(i));
        assert(s.remove(i).last() == s.last());
        assert(as_map(s.remove(i)) == as_map(s0.remove(i)).insert(s.last().0, s.last().1));
        assert(k != s.last().0);
        assert(as_map(s0).remove(k).insert(s.last().0, s.last().1) =~= as_map(s0).insert(
            s.last().0,
            s.last().1,
        ).remove(k));
    }
}

/// A finite map from 64-bit ids to values.
pub struct IdMap<V> {
    entries: Vec<(i64, V)>,
}

impl<V> View for IdMap<V> {
    type V = Map<i64, V>;

    closed spec fn view(&self) -> Map<i64, V> {
        as_map(self.entries@)
    }
}

impl<V> IdMap<V> {
    #[verifier::type_invariant]
    spec fn wf(&self) -> bool {
        distinct_keys(self.entries@)
    }

    /// The empty map.
    pub fn new() -> (r: IdMap<V>)
        ensures
            r@ == Map::<i64, V>::empty(),
    {
        IdMap { entries: Vec::new() }
    }

    /// How many ids the map holds.
    pub fn len(&self) -> (r: usize)
        ensures
            r == self@.len(),
            self@.dom().finite(),
    {
        proof {
            use_type_invariant(self);
            lemma_as_map_len(self.entries@);
        }
        self.entries.len()
    }

    /// The position of `id` among the entries, if any.
    fn position(&self, id: i64) -> (r: Option<usize>)
        ensures
            match r {
                Some(i) => i < self.entries@.len() && self.entries@[i as int].0 == id
                    && self@.dom().contains(id) && self@[id] == self.entries@[i as int].1,
                None => !self@.dom().contains(id),
            },
    {
        proof {
            use_type_invariant(self);
        }
        let n = self.entries.len();
        let mut i: usize = 0;
        while i < n
            invariant
                i <= n,
                n == self.entries@.len(),
                forall|j: int| 0 <= j < i ==> (#[trigger] self.entries@[j]).0 != id,
            decreases n - i,
        {
            if self.entries[i].0 == id {
                proof {
                    use_type_invariant(self);
                    lemma_as_map_get(self.entries@, i as int);
                }
                return Some(i);
            }
            i = i + 1;
        }
        proof {
            lemma_as_map_dom(self.entries@, id);
        }
        None
    }

    /// Whether the map holds `id`.
    pub fn contains_key(&self, id: i64) -> (r: bool)
        ensures
            r == self@.dom().contains(id),
    {
        match self.position(id) {
            Some(_) => true,
            None => false,
        }
    }

    /// The value at `id`, if any.
    pub fn get(&self, id: i64) -> (r: Option<&V>)
        ensures
            match r {
                Some(v) => self@.dom().contains(id) && *v == self@[id],
                None => !self@.dom().contains(id),
            },
    {
        match self.position(id) {
            Some(i) => Some(&self.entries[i].1),
            None => None,
        }
    }

    /// Bind `id` to `v`, replacing any previous binding.
    pub fn insert(&mut self, id: i64, v: V)
        ensures
            final(self)@ == old(self)@.insert(id, v),
    {
        proof {
            use_type_invariant(&*self);
        }
        let ghost pre = self.entries@;
        let pos = self.position(id);
        let mut entries: Vec<(i64, V)> = Vec::new();
        core::mem::swap(&mut entries, &mut self.entries);
        match pos {
            Some(i) => {
                let _ = entries.remove(i);
                proof {
                    lemma_as_map_remove(pre, i as int);
                    assert(distinct_keys(entries@)) by {
                        assert(forall|a: int|
                            0 <= a < pre.len() - 1 ==> #[trigger] pre.remove(i as int)[a]
                                == if a < i {
                                pre[a]
                            } else {
                                pre[a + 1]
                            });
                    }
                    lemma_as_map_dom(entries@, id);
                }
                entries.push((id, v));
                proof {
                    assert(entries@.drop_last() =~= pre.remove(i as int));
                    assert(as_map(entries@) =~= old(self)@.insert(id, v));
                    assert(distinct_keys(entries@)) by {
                        assert(forall|a: int|
                            0 <= a < pre.len() - 1 ==> (#[trigger] pre.remove(i as int)[a]).0
                                != id);
                    }
                }
            },
            None => {
                proof {
                    lemma_as_map_dom(pre, id);
                }
                entries.push((id, v));
                proof {
                    assert(entries@.drop_last() =~= pre);
                    assert(as_map(entries@) =~= old(self)@.insert(id, v));
                    assert(distinct_keys(entries@)) by {
                        assert(forall|a: int| 0 <= a < pre.len() ==> (#[trigger] pre[a]).0 != id);
                    }
                }
            },
        }
        core::mem::swap(&mut entries, &mut self.entries);
    }

    /// Take the binding at `id` out of the map, if any.
    pub fn remove(&mut self, id: i64) -> (r: Option<V>)
        ensures
            final(self)@ == old(self)@.remove(id),
            match r {
                Some(v) => old(self)@.dom().contains(id) && v == old(self)@[id],
                None => !old(self)@.dom().contains(id),
            },
    {
        proof {
            use_type_invariant(&*self);
        }
        let ghost pre = self.entries@;
        let pos = self.position(id);
        match pos {
            Some(i) => {
                let mut entries: Vec<(i64, V)> = Vec::new();
                core::mem::swap(&mut entries, &mut self.entries);
                let (_, v) = entries.remove(i);
                proof {
                    lemma_as_map_remove(pre, i as int);
                    assert(distinct_keys(entries@)) by {
                        assert(forall|a: int|
                            0 <= a < pre.len() - 1 ==> #[trigger] pre.remove(i as int)[a]
                                == if a < i {
                                pre[a]
                            } else {
                                pre[a + 1]
                            });
                    }
                }
                core::mem::swap(&mut entries, &mut self.entries);
                Some(v)
            },
            None => {
                proof {
                    assert(old(self)@.remove(id) =~= old(self)@);
                }
                None
            },
        }
    }

    /// The ids the map holds, each exactly once.
    pub fn keys(&self) -> (r: Vec<i64>)
        ensures
            r@.no_duplicates(),
            forall|k: i64| self@.dom().contains(k) <==> r@.contains(k),
            r@.len() == self@.len(),
    {
        proof {
            use_type_invariant(self);
            lemma_as_map_len(self.entries@);
        }
        let n = self.entries.len();
        let mut out: Vec<i64> = Vec::new();
        let mut i: usize = 0;
        while i < n
            invariant
                i <= n,
                n == self.entries@.len(),
                out@.len() == i,
                forall|j: int| 0 <= j < i ==> out@[j] == (#[trigger] self.entries@[j]).0,
                distinct_keys(self.entries@),
            decreases n - i,
        {
            out.push(self.entries[i].0);
            i = i + 1;
        }
        proof {
            assert(out@.no_duplicates()) by {
                assert(forall|a: int, b: int|
                    0 <= a < b < out@.len() ==> out@[a] == self.entries@[a].0 && out@[b]
                        == self.entries@[b].0);
            }
            assert forall|k: i64| self@.dom().contains(k) <==> out@.contains(k) by {
                lemma_as_map_dom(self.entries@, k);
                if exists|j: int| 0 <= j < self.entries@.len() && (#[trigger] self.entries@[j]).0
                    == k {
                    let j = choose|j: int|
                        0 <= j < self.entries@.len() && (#[trigger] self.entries@[j]).0 == k;
                    assert(out@[j] == k);
                }
                if out@.contains(k) {
                    let j = choose|j: int| 0 <= j < out@.len() && out@[j] == k;
                    assert(self.entries@[j].0 == k);
                }
            }
        }
        out
    }
}

} // verus!
