//! Ordering of containment children: `(order, id)` keys, sorted ascending.

use vstd::prelude::*;
use vstd::relations::*;

verus! {

broadcast use vstd::seq_lib::group_to_multiset_ensures, vstd::multiset::group_multiset_axioms;

/// Lexicographic `<=` on `(order, id)` keys.
pub open spec fn key_le(a: (i64, u64), b: (i64, u64)) -> bool {
    a.0 < b.0 || (a.0 == b.0 && a.1 <= b.1)
}

/// [`key_le`] as a relation value.
pub open spec fn key_order() -> spec_fn((i64, u64), (i64, u64)) -> bool {
    |a: (i64, u64), b: (i64, u64)| key_le(a, b)
}

pub proof fn lemma_key_order_total()
    ensures
        total_ordering(key_order()),
{
}

/// Sort `(order, id)` keys ascending.
pub fn sort_keys(v: &mut Vec<(i64, u64)>)
    ensures
        sorted_by(final(v)@, key_order()),
        final(v)@.to_multiset() == old(v)@.to_multiset(),
{
    let n = v.len();
    let mut i: usize = 1;
    if n == 0 {
        return;
    }
    while i < n
        invariant
            n == v@.len(),
            1 <= i <= n,
            forall|a: int, b: int| 0 <= a < b < i ==> #[trigger] key_le(v@[a], v@[b]),
            v@.to_multiset() == old(v)@.to_multiset(),
        decreases n - i,
    {
        let mut j: usize = i;
        while j > 0 && !(v[j - 1].0 < v[j].0 || (v[j - 1].0 == v[j].0 && v[j - 1].1 <= v[j].1))
            invariant
                n == v@.len(),
                i < n,
                0 <= j <= i,
                forall|a: int, b: int| 0 <= a < b <= i && a != j && b != j ==> #[trigger] key_le(v@[a], v@[b]),
                forall|b: int| j < b <= i ==> #[trigger] key_le(v@[j as int], v@[b]),
                v@.to_multiset() == old(v)@.to_multiset(),
            decreases j,
        {
            let x = v[j];
            let y = v[j - 1];
            let ghost before = v@;
            v[j - 1] = x;
            v[j] = y;
            proof {
                assert(v@ == before.update(j - 1, x).update(j as int, y));
                assert(before.update(j - 1, x).to_multiset() == before.to_multiset().insert(x).remove(y));
                assert(before.update(j - 1, x)[j as int] == x);
                assert(v@.to_multiset() == before.to_multiset().insert(x).remove(y).insert(y).remove(x));
                assert(v@.to_multiset() =~= before.to_multiset());
                assert forall|a: int, b: int| 0 <= a < b <= i && a != j - 1 && b != j - 1
                    implies #[trigger] key_le(v@[a], v@[b]) by {
                    if a == j {
                        assert(key_le(before[j - 1], before[b]));
                    } else if b == j {
                        assert(key_le(before[a], before[j - 1]));
                    } else {
                        assert(key_le(before[a], before[b]));
                    }
                }
                assert forall|b: int| j - 1 < b <= i implies #[trigger] key_le(v@[j - 1], v@[b]) by {
                    if b > j {
                        assert(key_le(before[j as int], before[b]));
                    }
                }
            }
            j = j - 1;
        }
        proof {
            assert forall|a: int, b: int| 0 <= a < b < i + 1 implies #[trigger] key_le(v@[a], v@[b]) by {
                if b == j {
                    assert(key_le(v@[a], v@[j - 1]));
                } else if a == j {
                } else {
                }
            }
        }
        i = i + 1;
    }
}

} // verus!
