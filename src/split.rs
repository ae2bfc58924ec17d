//! Median partition of a set of indices by an integer sort key.
use vstd::prelude::*;

verus! {

/// `s` lists each of `0..n` exactly once.
pub open spec fn is_index_permutation(s: Seq<usize>, n: nat) -> bool {
    &&& s.len() == n
    &&& s.no_duplicates()
    &&& forall|k: int| 0 <= k < s.len() ==> s[k] < n
    &&& forall|j: usize| j < n ==> s.contains(j)
}

/// The keys of the indices in `s` never decrease along `s`.
pub open spec fn sorted_by_key(s: Seq<usize>, keys: Seq<u32>) -> bool {
    forall|a: int, b: int| 0 <= a < b < s.len() ==> keys[s[a] as int] <= keys[s[b] as int]
}

/// Indices of equal key appear in `s` in increasing order.
pub open spec fn stable_by_key(s: Seq<usize>, keys: Seq<u32>) -> bool {
    forall|a: int, b: int|
        0 <= a < b < s.len() && keys[s[a] as int] == keys[s[b] as int] ==> s[a] < s[b]
}

/// Two orders of the same indices that are both sorted and stable by the
/// same keys are the same order.
pub proof fn lemma_sorted_stable_unique(p: Seq<usize>, q: Seq<usize>, keys: Seq<u32>)
    requires
        p.len() == q.len(),
        p.no_duplicates(),
        q.no_duplicates(),
        forall|x: usize| p.contains(x) <==> q.contains(x),
        sorted_by_key(p, keys),
        stable_by_key(p, keys),
        sorted_by_key(q, keys),
        stable_by_key(q, keys),
    ensures
        p == q,
    decreases p.len(),
{
    if p.len() == 0 {
        assert(p =~= q);
    } else {
        let n = p.len() as int;
        let x = p[n - 1];
        let y = q[n - 1];
        assert(p.contains(x));
        assert(q.contains(y));
        let k = choose|k: int| 0 <= k < q.len() && q[k] == x;
        let m = choose|m: int| 0 <= m < p.len() && p[m] == y;
        if x != y {
            assert(k < n - 1);
            assert(m < n - 1);
            assert(keys[x as int] <= keys[y as int]);
            assert(keys[y as int] <= keys[x as int]);
            assert(x < y);
            assert(y < x);
        }
        let p2 = p.drop_last();
        let q2 = q.drop_last();
        assert forall|z: usize| p2.contains(z) implies q2.contains(z) by {
            let i = choose|i: int| 0 <= i < p2.len() && p2[i] == z;
            assert(p[i] == z);
            assert(z != x);
            assert(p.contains(z));
            let j = choose|j: int| 0 <= j < q.len() && q[j] == z;
            assert(j != n - 1);
            assert(q2[j] == z);
        }
        assert forall|z: usize| q2.contains(z) implies p2.contains(z) by {
            let j = choose|j: int| 0 <= j < q2.len() && q2[j] == z;
            assert(q[j] == z);
            assert(z != y);
            assert(q.contains(z));
            let i = choose|i: int| 0 <= i < p.len() && p[i] == z;
            assert(i != n - 1);
            assert(p2[i] == z);
        }
        lemma_sorted_stable_unique(p2, q2, keys);
        assert(p =~= p2.push(x));
        assert(q =~= q2.push(y));
    }
}

/// `left` and `right` split `0..n` into two disjoint halves whose sizes
/// differ by at most one, `left` holding the larger half when `n` is odd.
pub open spec fn is_balanced_partition(left: Seq<usize>, right: Seq<usize>, n: nat) -> bool {
    &&& left.len() == n - n / 2
    &&& right.len() == n / 2
    &&& left.no_duplicates()
    &&& right.no_duplicates()
    &&& left.disjoint(right)
    &&& forall|k: int| 0 <= k < left.len() ==> left[k] < n
    &&& forall|k: int| 0 <= k < right.len() ==> right[k] < n
    &&& forall|j: usize| j < n ==> left.contains(j) || right.contains(j)
}

/// The indices `0..keys.len()` ordered by key; equal keys keep their
/// index order.
pub fn sort_indices_by_key(keys: &Vec<u32>) -> (order: Vec<usize>)
    ensures
        is_index_permutation(order@, keys@.len()),
        sorted_by_key(order@, keys@),
        stable_by_key(order@, keys@),
{
    let n = keys.len();
    let mut order: Vec<usize> = Vec::new();
    let mut i: usize = 0;
    while i < n
        invariant
            n == keys@.len(),
            i <= n,
            is_index_permutation(order@, i as nat),
            sorted_by_key(order@, keys@),
            stable_by_key(order@, keys@),
        decreases n - i,
    {
        let key = keys[i];
        let mut p: usize = 0;
        while p < order.len() && keys[order[p]] <= key
            invariant
                n == keys@.len(),
                i < n,
                p <= order@.len(),
                is_index_permutation(order@, i as nat),
                forall|a: int| 0 <= a < p ==> keys@[order@[a] as int] <= key,
            decreases order@.len() - p,
        {
            p = p + 1;
        }
        let ghost old_order = order@;
        proof {
            old_order.insert_ensures(p as int, i);
        }
        order.insert(p, i);
        proof {
            let s = order@;
            assert(s.len() == i + 1);
            assert forall|a: int| 0 <= a < s.len() implies s[a] < i + 1 by {
                if a > p {
                    assert(s[a] == old_order[a - 1]);
                }
            }
            assert forall|a: int, b: int| 0 <= a < s.len() && 0 <= b < s.len() && a != b implies s[a]
                != s[b] by {
                if a > p {
                    assert(s[a] == old_order[a - 1]);
                }
                if b > p {
                    assert(s[b] == old_order[b - 1]);
                }
            }
            assert forall|j: usize| j < i + 1 implies s.contains(j) by {
                if j == i {
                    assert(s[p as int] == j);
                } else {
                    assert(old_order.contains(j));
                    let k = choose|k: int| 0 <= k < old_order.len() && old_order[k] == j;
                    if k < p {
                        assert(s[k] == j);
                    } else {
                        assert(s[k + 1] == j);
                    }
                }
            }
            assert forall|a: int, b: int|
                0 <= a < b < s.len() && keys@[s[a] as int] == keys@[s[b] as int] implies s[a]
                < s[b] by {
                if b < p {
                } else if b == p {
                } else if a < p {
                    assert(s[b] == old_order[b - 1]);
                } else if a == p {
                    assert(s[b] == old_order[b - 1]);
                    assert(keys@[old_order[p as int] as int] > key);
                    if b - 1 > p {
                        assert(keys@[old_order[p as int] as int] <= keys@[old_order[b - 1] as int]);
                    }
                } else {
                    assert(s[a] == old_order[a - 1]);
                    assert(s[b] == old_order[b - 1]);
                }
            }
            assert forall|a: int, b: int| 0 <= a < b < s.len() implies keys@[s[a] as int]
                <= keys@[s[b] as int] by {
                if b < p {
                } else if b == p {
                } else if a < p {
                    assert(s[b] == old_order[b - 1]);
                    if p < old_order.len() {
                        assert(keys@[old_order[p as int] as int] > key);
                        assert(keys@[old_order[a] as int] <= keys@[old_order[p as int] as int]);
                    }
                } else if a == p {
                    assert(s[b] == old_order[b - 1]);
                    assert(keys@[old_order[p as int] as int] > key);
                    if b - 1 > p {
                        assert(keys@[old_order[p as int] as int] <= keys@[old_order[b - 1] as int]);
                    }
                } else {
                    assert(s[a] == old_order[a - 1]);
                    assert(s[b] == old_order[b - 1]);
                }
            }
        }
        i = i + 1;
    }
    order
}

/// Splits the indices of `keys` at the median key: the upper half (by key)
/// is returned first, the lower half second. With an odd count the upper
/// half holds the extra index.
pub fn split_by_keys(keys: &Vec<u32>) -> (r: (Vec<usize>, Vec<usize>))
    ensures
        is_balanced_partition(r.0@, r.1@, keys@.len()),
        forall|a: int, b: int|
            0 <= a < r.1@.len() && 0 <= b < r.0@.len() ==> keys@[r.1@[a] as int] <= keys@[r.0@[b]
                as int],
        sorted_by_key(r.1@ + r.0@, keys@),
        stable_by_key(r.1@ + r.0@, keys@),
        is_index_permutation(r.1@ + r.0@, keys@.len()),
{
    let mut order = sort_indices_by_key(keys);
    let ghost all = order@;
    let half = order.len() / 2;
    let upper = order.split_off(half);
    proof {
        let n = keys@.len();
        let (l, r) = (upper@, order@);
        assert(r + l =~= all);
        assert forall|j: usize| j < n implies l.contains(j) || r.contains(j) by {
            assert(all.contains(j));
            let k = choose|k: int| 0 <= k < all.len() && all[k] == j;
            if k < half {
                assert(r[k] == j);
            } else {
                assert(l[k - half] == j);
            }
        }
        assert forall|a: int, b: int| 0 <= a < l.len() && 0 <= b < l.len() && a != b implies l[a]
            != l[b] by {
            assert(l[a] == all[a + half]);
            assert(l[b] == all[b + half]);
        }
        assert forall|a: int, b: int| 0 <= a < l.len() && 0 <= b < r.len() implies l[a] != r[b] by {
            assert(l[a] == all[a + half]);
            assert(r[b] == all[b]);
        }
        assert forall|a: int, b: int| 0 <= a < r.len() && 0 <= b < l.len() implies keys@[r[a] as int]
            <= keys@[l[b] as int] by {
            assert(l[b] == all[b + half]);
            assert(r[a] == all[a]);
        }
    }
    (upper, order)
}

} // verus!
