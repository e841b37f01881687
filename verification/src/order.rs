//! A total preorder on records and a sort that canonicalises collections by
//! it.  Snapshot types implement [`Ordered`] with the key the wire format
//! sorts them by.

use vstd::prelude::*;
use vstd::seq_lib::to_multiset_insert;

verus! {

/// A type with a total, transitive comparison that collections of it are
/// kept sorted by.
pub trait Ordered: Sized {
    /// The order the collection is canonicalised by.
    spec fn leq(self, other: Self) -> bool;

    /// The order is total.
    proof fn lemma_leq_total(a: Self, b: Self)
        ensures
            a.leq(b) || b.leq(a),
    ;

    /// The order is transitive.
    proof fn lemma_leq_trans(a: Self, b: Self, c: Self)
        requires
            a.leq(b),
            b.leq(c),
        ensures
            a.leq(c),
    ;

    /// Decide the order.
    fn leq_exec(&self, other: &Self) -> (r: bool)
        ensures
            r == self.leq(*other),
    ;
}

/// Every pair of elements of `s` is in order.
pub open spec fn sorted<T: Ordered>(s: Seq<T>) -> bool {
    forall|i: int, j: int| 0 <= i < j < s.len() ==> #[trigger] s[i].leq(s[j])
}

/// Place `x` into the sorted vector `out`, keeping it sorted; the contents
/// gain exactly `x`.
pub fn insert_sorted<T: Ordered>(out: &mut Vec<T>, x: T)
    requires
        sorted::<T>(old(out)@),
    ensures
        sorted::<T>(final(out)@),
        final(out)@.to_multiset() == old(out)@.to_multiset().insert(x),
        final(out)@.len() == old(out)@.len() + 1,
{
    let ghost orig = out@;
    let n = out.len();
    let mut i: usize = 0;
    loop
        invariant
            i <= n,
            n == out@.len(),
            out@ == orig,
            sorted::<T>(out@),
            forall|j: int| 0 <= j < i ==> (#[trigger] out@[j]).leq(x),
        ensures
            i <= n,
            out@ == orig,
            forall|j: int| 0 <= j < i ==> (#[trigger] out@[j]).leq(x),
            i < n ==> x.leq(out@[i as int]),
        decreases n - i,
    {
        if i >= n {
            break;
        }
        if !out[i].leq_exec(&x) {
            proof {
                T::lemma_leq_total(out@[i as int], x);
            }
            break;
        }
        i = i + 1;
    }
    out.insert(i, x);
    proof {
        to_multiset_insert(orig, i as int, x);
        assert(out@.to_multiset() =~= orig.to_multiset().insert(x));
        let s = out@;
        assert forall|a: int, b: int| 0 <= a < b < s.len() implies #[trigger] s[a].leq(
            s[b],
        ) by {
            let iv = i as int;
            if b < iv {
                assert(orig[a].leq(orig[b]));
            } else if b == iv {
                assert(s[a] == orig[a]);
                assert(orig[a].leq(x));
            } else {
                assert(s[b] == orig[b - 1]);
                if a < iv {
                    assert(s[a] == orig[a]);
                    if a < b - 1 {
                        assert(orig[a].leq(orig[b - 1]));
                    }
                } else if a == iv {
                    assert(x.leq(orig[iv]));
                    if b - 1 > iv {
                        assert(orig[iv].leq(orig[b - 1]));
                        T::lemma_leq_trans(x, orig[iv], orig[b - 1]);
                    }
                } else {
                    assert(s[a] == orig[a - 1]);
                    assert(orig[a - 1].leq(orig[b - 1]));
                }
            }
        }
    }
}

/// The contents of `v`, sorted by the type's order; a permutation of the
/// input.
pub fn sort_vec<T: Ordered>(v: Vec<T>) -> (r: Vec<T>)
    ensures
        sorted::<T>(r@),
        r@.to_multiset() == v@.to_multiset(),
        r@.len() == v@.len(),
{
    let ghost total = v@.to_multiset();
    let mut rest = v;
    let mut out: Vec<T> = Vec::new();
    proof {
        vstd::seq_lib::to_multiset_len(out@);
        vstd::seq_lib::to_multiset_len(rest@);
        assert(out@.to_multiset().add(rest@.to_multiset()) =~= total);
    }
    while rest.len() > 0
        invariant
            sorted::<T>(out@),
            out@.to_multiset().add(rest@.to_multiset()) == total,
            out@.len() + rest@.len() == total.len(),
        decreases rest@.len(),
    {
        let ghost rest_pre = rest@;
        let ghost out_pre = out@;
        let x = match rest.pop() {
            Some(x) => x,
            None => {
                proof {
                    assert(false);
                }
                unreached()
            },
        };
        proof {
            assert(rest_pre =~= rest@.push(x));
            vstd::seq_lib::to_multiset_build(rest@, x);
            vstd::seq_lib::to_multiset_len(rest_pre);
            vstd::seq_lib::to_multiset_len(rest@);
        }
        insert_sorted(&mut out, x);
        proof {
            assert(out@.to_multiset().add(rest@.to_multiset()) =~= total);
            vstd::seq_lib::to_multiset_len(out@);
            vstd::seq_lib::to_multiset_len(out_pre);
        }
    }
    proof {
        vstd::seq_lib::to_multiset_len(rest@);
        assert(out@.to_multiset().add(rest@.to_multiset()) =~= out@.to_multiset());
        vstd::seq_lib::to_multiset_len(out@);
        vstd::seq_lib::to_multiset_len(v@);
    }
    out
}

} // verus!
