//! Rewriting a finalized tree into its strict binary form: unions are
//! regrouped into a hierarchy of two-child unions by median splits along
//! the longest axis of their enclosing volume.
use vstd::multiset::Multiset;
use vstd::prelude::*;
use crate::dense_node::SdfNode;
use crate::element::{BoundingVolume, SdfElement};
use crate::expanded_node::ExpandedSdfNode;
use crate::split::{
    is_index_permutation, lemma_sorted_stable_unique, sorted_by_key, split_by_keys, stable_by_key,
};

verus! {

/// `li` and `ri` are the upper and lower halves of `idx` when its
/// positions are ordered by `keys` (a stable sort): `li` holds the larger
/// keys, and the extra entry when `idx` has odd length.
pub open spec fn is_regrouping(idx: Seq<usize>, li: Seq<usize>, ri: Seq<usize>, keys: Seq<u32>) -> bool {
    exists|p: Seq<usize>|
        #[trigger] is_index_permutation(p, idx.len()) && sorted_by_key(p, keys) && stable_by_key(
            p,
            keys,
        ) && li == p.subrange((idx.len() / 2) as int, idx.len() as int).map_values(
            |j: usize| idx[j as int],
        ) && ri == p.subrange(0, (idx.len() / 2) as int).map_values(|j: usize| idx[j as int])
}

/// The indices `0..n`.
pub open spec fn all_indices(n: nat) -> Seq<usize> {
    Seq::new(n, |i: int| i as usize)
}

impl<E, B: BoundingVolume> SdfNode<E, B> {
    /// The volumes of the children listed in `idx`.
    pub open spec fn union_boxes(&self, idx: Seq<usize>) -> Seq<B> {
        idx.map_values(|i: usize| self.slots@[i as int].bbox)
    }

    /// Order keys of the children listed in `idx` along their merged
    /// volume's longest axis.
    pub open spec fn union_keys(&self, idx: Seq<usize>) -> Seq<u32> {
        let merged = B::merge_spec(self.union_boxes(idx));
        self.union_boxes(idx).map_values(|b: B| merged.split_key_spec(b))
    }

    /// `e` is a binary form of this tree: primitives are kept; a union of
    /// one child becomes that child's form, a union of several a hierarchy
    /// of two-child unions over its children's forms; an operator with
    /// fixed slots keeps its first two children's forms as its two
    /// positions, `Null` where a slot is missing.
    pub open spec fn expands_to(&self, e: ExpandedSdfNode<E, B>) -> bool
        decreases self, 1nat, 0nat,
    {
        let n = self.slots@.len();
        if self.info.is_primitive {
            e == (ExpandedSdfNode::Primitive { bbox: self.bbox, intern: self.intern, info: self.info })
        } else if self.info.is_union {
            if n == 0 {
                e == (ExpandedSdfNode::<E, B>::Null { bbox: B::zero_spec() })
            } else {
                self.union_expands_to(all_indices(n), e)
            }
        } else {
            match e {
                ExpandedSdfNode::Operation { bbox, intern, info, left, right } => {
                    &&& intern == self.intern
                    &&& info == self.info
                    &&& if n >= 1 {
                        self.slots@[0].expands_to(*left)
                    } else {
                        *left == (ExpandedSdfNode::<E, B>::Null { bbox: B::zero_spec() })
                    }
                    &&& if n >= 2 {
                        self.slots@[1].expands_to(*right)
                    } else {
                        *right == (ExpandedSdfNode::<E, B>::Null { bbox: B::zero_spec() })
                    }
                    &&& bbox == if n <= 1 {
                        left.bbox_spec()
                    } else {
                        self.bbox
                    }
                },
                _ => false,
            }
        }
    }

    /// `e` is a hierarchy of two-child unions of this node's element over
    /// the forms of the children listed in `idx`: each union's volume is the
    /// merge of its children's volumes, and its halves are split at the
    /// median of their keys along that merged volume.
    pub open spec fn union_expands_to(&self, idx: Seq<usize>, e: ExpandedSdfNode<E, B>) -> bool
        decreases self, 0nat, idx.len(),
    {
        if idx.len() == 1 {
            idx[0] < self.slots@.len() && self.slots@[idx[0] as int].expands_to(e)
        } else if idx.len() >= 2 {
            match e {
                ExpandedSdfNode::Operation { bbox, intern, info, left, right } => {
                    &&& bbox == B::merge_spec(self.union_boxes(idx))
                    &&& intern == self.intern
                    &&& info == self.info
                    &&& exists|li: Seq<usize>, ri: Seq<usize>|
                        li.len() < idx.len() && ri.len() < idx.len() && #[trigger] is_regrouping(
                            idx,
                            li,
                            ri,
                            self.union_keys(idx),
                        ) && self.union_expands_to(li, *left) && self.union_expands_to(ri, *right)
                },
                _ => false,
            }
        } else {
            false
        }
    }
}

/// The entries of `idx` at `positions`.
fn select(idx: &Vec<usize>, positions: &Vec<usize>) -> (r: Vec<usize>)
    requires
        forall|k: int| 0 <= k < positions@.len() ==> positions@[k] < idx@.len(),
    ensures
        r@ == positions@.map_values(|j: usize| idx@[j as int]),
{
    let mut r: Vec<usize> = Vec::new();
    let mut k: usize = 0;
    while k < positions.len()
        invariant
            k <= positions@.len(),
            forall|m: int| 0 <= m < positions@.len() ==> positions@[m] < idx@.len(),
            r@ == positions@.subrange(0, k as int).map_values(|j: usize| idx@[j as int]),
        decreases positions@.len() - k,
    {
        r.push(idx[positions[k]]);
        k = k + 1;
        assert(positions@.subrange(0, k as int) =~= positions@.subrange(0, k - 1).push(
            positions@[k - 1],
        ));
    }
    assert(positions@.subrange(0, k as int) =~= positions@);
    r
}

impl<E: SdfElement<B>, B: BoundingVolume> SdfNode<E, B> {
    /// The strict binary form of this tree.
    pub fn expanded(&self) -> (r: ExpandedSdfNode<E, B>)
        ensures
            self.expands_to(r),
            leaves(r) == self.kept_leaves(),
        decreases self, 2nat, 0nat,
    {
        let r = self.expand_node();
        proof {
            lemma_expansion_keeps_primitives(*self, r);
        }
        r
    }

    fn expand_node(&self) -> (r: ExpandedSdfNode<E, B>)
        ensures
            self.expands_to(r),
        decreases self, 1nat, 0nat,
    {
        let n = self.slots.len();
        if self.info.is_primitive {
            ExpandedSdfNode::Primitive { bbox: self.bbox, intern: self.intern, info: self.info }
        } else if self.info.is_union {
            if n == 0 {
                ExpandedSdfNode::null()
            } else {
                let mut idx: Vec<usize> = Vec::new();
                let mut i: usize = 0;
                while i < n
                    invariant
                        n == self.slots@.len(),
                        i <= n,
                        idx@ == all_indices(i as nat),
                    decreases n - i,
                {
                    idx.push(i);
                    i = i + 1;
                    assert(idx@ =~= all_indices(i as nat));
                }
                self.expand_union(&idx)
            }
        } else {
            let left = if n >= 1 {
                self.slots[0].expanded()
            } else {
                ExpandedSdfNode::null()
            };
            let right = if n >= 2 {
                self.slots[1].expanded()
            } else {
                ExpandedSdfNode::null()
            };
            let bbox = if n <= 1 {
                left.bbox()
            } else {
                self.bbox
            };
            ExpandedSdfNode::Operation {
                bbox,
                intern: self.intern,
                info: self.info,
                left: Box::new(left),
                right: Box::new(right),
            }
        }
    }

    /// The binary union hierarchy over the children listed in `idx`.
    fn expand_union(&self, idx: &Vec<usize>) -> (r: ExpandedSdfNode<E, B>)
        requires
            idx@.len() >= 1,
            forall|k: int| 0 <= k < idx@.len() ==> idx@[k] < self.slots@.len(),
        ensures
            self.union_expands_to(idx@, r),
        decreases self, 0nat, idx@.len(),
    {
        let m = idx.len();
        if m == 1 {
            return self.slots[idx[0]].expanded();
        }
        let mut boxes: Vec<B> = Vec::new();
        let mut k: usize = 0;
        while k < m
            invariant
                m == idx@.len(),
                k <= m,
                boxes@ == self.union_boxes(idx@.subrange(0, k as int)),
                forall|j: int| 0 <= j < idx@.len() ==> idx@[j] < self.slots@.len(),
            decreases m - k,
        {
            boxes.push(self.slots[idx[k]].bbox);
            k = k + 1;
            assert(self.union_boxes(idx@.subrange(0, k as int)) =~= self.union_boxes(
                idx@.subrange(0, k - 1),
            ).push(self.slots@[idx@[k - 1] as int].bbox));
        }
        assert(idx@.subrange(0, m as int) =~= idx@);
        let merged = B::merge(&boxes);
        let mut keys: Vec<u32> = Vec::new();
        let mut k: usize = 0;
        while k < m
            invariant
                m == boxes@.len(),
                k <= m,
                keys@ == boxes@.subrange(0, k as int).map_values(|b: B| merged.split_key_spec(b)),
            decreases m - k,
        {
            keys.push(merged.split_key(&boxes[k]));
            k = k + 1;
            assert(boxes@.subrange(0, k as int).map_values(|b: B| merged.split_key_spec(b))
                =~= boxes@.subrange(0, k - 1).map_values(|b: B| merged.split_key_spec(b)).push(
                merged.split_key_spec(boxes@[k - 1]),
            ));
        }
        assert(boxes@.subrange(0, m as int) =~= boxes@);
        assert(keys@ == self.union_keys(idx@));
        let (upper, lower) = split_by_keys(&keys);
        let li = select(idx, &upper);
        let ri = select(idx, &lower);
        proof {
            let p = lower@ + upper@;
            assert(p.subrange((m / 2) as int, m as int) =~= upper@);
            assert(p.subrange(0, (m / 2) as int) =~= lower@);
            assert(is_index_permutation(p, idx@.len()));
            assert(is_regrouping(idx@, li@, ri@, keys@));
        }
        let left = self.expand_union(&li);
        let right = self.expand_union(&ri);
        ExpandedSdfNode::Operation {
            bbox: merged,
            intern: self.intern,
            info: self.info,
            left: Box::new(left),
            right: Box::new(right),
        }
    }
}

/// The primitive leaves of an expanded tree.
pub open spec fn leaves<E, B>(e: ExpandedSdfNode<E, B>) -> Multiset<ExpandedSdfNode<E, B>>
    decreases e,
{
    match e {
        ExpandedSdfNode::Null { .. } => Multiset::empty(),
        ExpandedSdfNode::Primitive { .. } => Multiset::singleton(e),
        ExpandedSdfNode::Operation { left, right, .. } => leaves(*left).add(leaves(*right)),
    }
}

impl<E, B: BoundingVolume> SdfNode<E, B> {
    /// The primitives of this tree that its binary form carries, as leaves:
    /// all of a union's children, the first two slots of other operators.
    pub open spec fn kept_leaves(&self) -> Multiset<ExpandedSdfNode<E, B>>
        decreases self, 1nat, 0nat,
    {
        let n = self.slots@.len();
        if self.info.is_primitive {
            Multiset::singleton(
                ExpandedSdfNode::Primitive { bbox: self.bbox, intern: self.intern, info: self.info },
            )
        } else if self.info.is_union {
            self.slot_leaves(all_indices(n))
        } else {
            let l = if n >= 1 {
                self.slots@[0].kept_leaves()
            } else {
                Multiset::empty()
            };
            let r = if n >= 2 {
                self.slots@[1].kept_leaves()
            } else {
                Multiset::empty()
            };
            l.add(r)
        }
    }

    /// The kept leaves of the children listed in `idx`, together.
    pub open spec fn slot_leaves(&self, idx: Seq<usize>) -> Multiset<ExpandedSdfNode<E, B>>
        decreases self, 0nat, idx.len(),
    {
        if idx.len() == 0 {
            Multiset::empty()
        } else {
            let j = idx.last();
            let last = if j < self.slots@.len() {
                self.slots@[j as int].kept_leaves()
            } else {
                Multiset::empty()
            };
            self.slot_leaves(idx.drop_last()).add(last)
        }
    }

    proof fn lemma_slot_leaves_append(&self, a: Seq<usize>, b: Seq<usize>)
        ensures
            self.slot_leaves(a + b) == self.slot_leaves(a).add(self.slot_leaves(b)),
        decreases b.len(),
    {
        if b.len() == 0 {
            assert(a + b =~= a);
            assert(self.slot_leaves(a).add(Multiset::empty()) =~= self.slot_leaves(a));
        } else {
            assert((a + b).drop_last() =~= a + b.drop_last());
            assert((a + b).last() == b.last());
            self.lemma_slot_leaves_append(a, b.drop_last());
            assert(self.slot_leaves(a + b) =~= self.slot_leaves(a).add(self.slot_leaves(b)));
        }
    }

    /// Listing the children in another order gathers the same leaves.
    proof fn lemma_slot_leaves_permuted(&self, idx: Seq<usize>, p: Seq<usize>)
        requires
            is_index_permutation(p, idx.len()),
            idx.len() <= usize::MAX,
        ensures
            self.slot_leaves(p.map_values(|j: usize| idx[j as int])) == self.slot_leaves(idx),
        decreases idx.len(),
    {
        let n = idx.len();
        let f = |j: usize| idx[j as int];
        if n == 0 {
            assert(p.map_values(f) =~= Seq::<usize>::empty());
        } else {
            let top = (n - 1) as usize;
            assert(p.contains(top));
            let k = choose|k: int| 0 <= k < p.len() && p[k] == top;
            let a = p.subrange(0, k);
            let c = p.subrange(k + 1, p.len() as int);
            let q = a + c;
            let idx2 = idx.drop_last();
            let f2 = |j: usize| idx2[j as int];
            assert forall|m: int| 0 <= m < q.len() implies q[m] < n - 1 && q[m] == p[
                if m < k {
                    m
                } else {
                    m + 1
                }
            ] by {
                if m < k {
                    assert(q[m] == p[m]);
                } else {
                    assert(q[m] == c[m - k]);
                    assert(q[m] == p[m + 1]);
                    assert(m + 1 != k);
                }
            }
            assert forall|m1: int, m2: int|
                0 <= m1 < q.len() && 0 <= m2 < q.len() && m1 != m2 implies q[m1] != q[m2] by {
                let i1 = if m1 < k {
                    m1
                } else {
                    m1 + 1
                };
                let i2 = if m2 < k {
                    m2
                } else {
                    m2 + 1
                };
                assert(q[m1] == p[i1]);
                assert(q[m2] == p[i2]);
            }
            assert forall|j: usize| j < n - 1 implies q.contains(j) by {
                assert(p.contains(j));
                let m = choose|m: int| 0 <= m < p.len() && p[m] == j;
                if m < k {
                    assert(q[m] == j);
                } else {
                    assert(m != k);
                    assert(q[m - 1] == p[m]);
                    assert(q[m - 1] == j);
                }
            }
            assert(is_index_permutation(q, idx2.len()));
            self.lemma_slot_leaves_permuted(idx2, q);
            let am = a.map_values(f);
            let cm = c.map_values(f);
            let mid = seq![idx[top as int]];
            assert forall|m: int| 0 <= m < q.len() implies #[trigger] q.map_values(f2)[m] == (am + cm)[m] by {
                if m < k {
                    assert((am + cm)[m] == am[m]);
                } else {
                    assert((am + cm)[m] == cm[m - k]);
                }
            }
            assert(q.map_values(f2) =~= am + cm);
            assert(p =~= a + seq![top] + c);
            assert forall|m: int| 0 <= m < p.len() implies #[trigger] p.map_values(f)[m] == (am + mid
                + cm)[m] by {
                if m < k {
                    assert(p[m] == a[m]);
                } else if m == k {
                } else {
                    assert(p[m] == c[m - k - 1]);
                }
            }
            assert(p.map_values(f) =~= am + mid + cm);
            self.lemma_slot_leaves_append(am + mid, cm);
            self.lemma_slot_leaves_append(am, mid);
            self.lemma_slot_leaves_append(am, cm);
            let j = idx[top as int];
            let lastm = if j < self.slots@.len() {
                self.slots@[j as int].kept_leaves()
            } else {
                Multiset::empty()
            };
            assert(mid.drop_last() =~= Seq::<usize>::empty());
            assert(self.slot_leaves(Seq::<usize>::empty()) == Multiset::<ExpandedSdfNode<E, B>>::empty());
            assert(self.slot_leaves(mid) =~= lastm);
            assert(idx.last() == j);
            assert(self.slot_leaves(idx) == self.slot_leaves(idx2).add(lastm));
            assert(self.slot_leaves(p.map_values(f)) =~= self.slot_leaves(idx));
        }
    }
}

/// Expansion keeps every primitive: the leaves of a binary form are the
/// kept leaves of the tree, each as often as it occurs there.
pub proof fn lemma_expansion_keeps_primitives<E, B: BoundingVolume>(d: SdfNode<E, B>, e: ExpandedSdfNode<E, B>)
    requires
        d.expands_to(e),
    ensures
        leaves(e) == d.kept_leaves(),
    decreases d, 1nat, 0nat,
{
    let n = d.slots@.len();
    if d.info.is_primitive {
        assert(leaves(e) =~= d.kept_leaves());
    } else if d.info.is_union {
        if n == 0 {
            assert(all_indices(0) =~= Seq::<usize>::empty());
            assert(d.slot_leaves(all_indices(0)) =~= Multiset::empty());
            assert(leaves(e) =~= Multiset::empty());
        } else {
            assert(d.slots@.len() == d.slots.len());
            lemma_union_expansion_keeps_primitives(d, all_indices(n), e);
        }
    } else if let ExpandedSdfNode::Operation { left, right, .. } = e {
        if n >= 1 {
            assert(decreases_to!(d => d.slots@[0]));
            lemma_expansion_keeps_primitives(d.slots@[0], *left);
        } else {
            assert(leaves(*left) =~= Multiset::empty());
        }
        if n >= 2 {
            assert(decreases_to!(d => d.slots@[1]));
            lemma_expansion_keeps_primitives(d.slots@[1], *right);
        } else {
            assert(leaves(*right) =~= Multiset::empty());
        }
        assert(leaves(e) == leaves(*left).add(leaves(*right)));
        assert(leaves(e) =~= d.kept_leaves());
    }
}

proof fn lemma_union_expansion_keeps_primitives<E, B: BoundingVolume>(
    d: SdfNode<E, B>,
    idx: Seq<usize>,
    e: ExpandedSdfNode<E, B>,
)
    requires
        d.union_expands_to(idx, e),
        idx.len() <= usize::MAX,
    ensures
        leaves(e) == d.slot_leaves(idx),
    decreases d, 0nat, idx.len(),
{
    if idx.len() == 1 {
        assert(decreases_to!(d => d.slots@[idx[0] as int]));
        lemma_expansion_keeps_primitives(d.slots@[idx[0] as int], e);
        assert(idx.drop_last() =~= Seq::<usize>::empty());
        assert(d.slot_leaves(Seq::<usize>::empty()) == Multiset::<ExpandedSdfNode<E, B>>::empty());
        assert(d.slot_leaves(idx) =~= d.slots@[idx[0] as int].kept_leaves());
    } else if let ExpandedSdfNode::Operation { left, right, .. } = e {
        let keys = d.union_keys(idx);
        let (li, ri) = choose|li: Seq<usize>, ri: Seq<usize>|
            li.len() < idx.len() && ri.len() < idx.len() && #[trigger] is_regrouping(idx, li, ri, keys)
                && d.union_expands_to(li, *left) && d.union_expands_to(ri, *right);
        lemma_union_expansion_keeps_primitives(d, li, *left);
        lemma_union_expansion_keeps_primitives(d, ri, *right);
        let p = choose|p: Seq<usize>|
            #[trigger] is_index_permutation(p, idx.len()) && sorted_by_key(p, keys) && stable_by_key(
                p,
                keys,
            ) && li == p.subrange(
                (idx.len() / 2) as int,
                idx.len() as int,
            ).map_values(|j: usize| idx[j as int]) && ri == p.subrange(
                0,
                (idx.len() / 2) as int,
            ).map_values(|j: usize| idx[j as int]);
        let h = (idx.len() / 2) as int;
        let f = |j: usize| idx[j as int];
        let pm = p.map_values(f);
        assert(li == p.subrange(h, idx.len() as int).map_values(f));
        assert(ri == p.subrange(0, h).map_values(f));
        assert forall|m: int| 0 <= m < p.len() implies #[trigger] pm[m] == (ri + li)[m] by {
            if m < h {
                assert((ri + li)[m] == ri[m]);
            } else {
                assert((ri + li)[m] == li[m - h]);
            }
        }
        assert(pm =~= ri + li);
        d.lemma_slot_leaves_permuted(idx, p);
        d.lemma_slot_leaves_append(ri, li);
        assert(leaves(e) =~= d.slot_leaves(ri).add(d.slot_leaves(li)));
    }
}

/// A tree has exactly one binary form: the median splits, the merged
/// volumes and every other part of it are determined by the tree.
pub proof fn lemma_expansion_unique<E, B: BoundingVolume>(
    d: SdfNode<E, B>,
    e1: ExpandedSdfNode<E, B>,
    e2: ExpandedSdfNode<E, B>,
)
    requires
        d.expands_to(e1),
        d.expands_to(e2),
    ensures
        e1 == e2,
    decreases d, 1nat, 0nat,
{
    let n = d.slots@.len();
    if d.info.is_primitive {
    } else if d.info.is_union {
        if n > 0 {
            assert(d.slots@.len() == d.slots.len());
            lemma_union_expansion_unique(d, all_indices(n), e1, e2);
        }
    } else if let ExpandedSdfNode::Operation { left: l1, right: r1, .. } = e1 {
        if let ExpandedSdfNode::Operation { left: l2, right: r2, .. } = e2 {
            if n >= 1 {
                assert(decreases_to!(d => d.slots@[0]));
                lemma_expansion_unique(d.slots@[0], *l1, *l2);
            }
            if n >= 2 {
                assert(decreases_to!(d => d.slots@[1]));
                lemma_expansion_unique(d.slots@[1], *r1, *r2);
            }
            assert(l1 == l2);
            assert(r1 == r2);
        }
    }
}

proof fn lemma_union_expansion_unique<E, B: BoundingVolume>(
    d: SdfNode<E, B>,
    idx: Seq<usize>,
    e1: ExpandedSdfNode<E, B>,
    e2: ExpandedSdfNode<E, B>,
)
    requires
        d.union_expands_to(idx, e1),
        d.union_expands_to(idx, e2),
        idx.len() <= usize::MAX,
    ensures
        e1 == e2,
    decreases d, 0nat, idx.len(),
{
    if idx.len() == 1 {
        assert(decreases_to!(d => d.slots@[idx[0] as int]));
        lemma_expansion_unique(d.slots@[idx[0] as int], e1, e2);
    } else if let ExpandedSdfNode::Operation { left: l1, right: r1, .. } = e1 {
        if let ExpandedSdfNode::Operation { left: l2, right: r2, .. } = e2 {
            let keys = d.union_keys(idx);
            let (li1, ri1) = choose|li: Seq<usize>, ri: Seq<usize>|
                li.len() < idx.len() && ri.len() < idx.len() && #[trigger] is_regrouping(
                    idx,
                    li,
                    ri,
                    keys,
                ) && d.union_expands_to(li, *l1) && d.union_expands_to(ri, *r1);
            let (li2, ri2) = choose|li: Seq<usize>, ri: Seq<usize>|
                li.len() < idx.len() && ri.len() < idx.len() && #[trigger] is_regrouping(
                    idx,
                    li,
                    ri,
                    keys,
                ) && d.union_expands_to(li, *l2) && d.union_expands_to(ri, *r2);
            let h = (idx.len() / 2) as int;
            let f = |j: usize| idx[j as int];
            let p1 = choose|p: Seq<usize>|
                #[trigger] is_index_permutation(p, idx.len()) && sorted_by_key(p, keys)
                    && stable_by_key(p, keys) && li1 == p.subrange(h, idx.len() as int).map_values(f)
                    && ri1 == p.subrange(0, h).map_values(f);
            let p2 = choose|p: Seq<usize>|
                #[trigger] is_index_permutation(p, idx.len()) && sorted_by_key(p, keys)
                    && stable_by_key(p, keys) && li2 == p.subrange(h, idx.len() as int).map_values(f)
                    && ri2 == p.subrange(0, h).map_values(f);
            assert forall|x: usize| p1.contains(x) implies p2.contains(x) by {
                let i = choose|i: int| 0 <= i < p1.len() && p1[i] == x;
                assert(x < idx.len());
            }
            assert forall|x: usize| p2.contains(x) implies p1.contains(x) by {
                let i = choose|i: int| 0 <= i < p2.len() && p2[i] == x;
                assert(x < idx.len());
            }
            lemma_sorted_stable_unique(p1, p2, keys);
            assert(li1 == li2);
            assert(ri1 == ri2);
            lemma_union_expansion_unique(d, li1, *l1, *l2);
            lemma_union_expansion_unique(d, ri1, *r1, *r2);
            assert(l1 == l2);
            assert(r1 == r2);
        }
    }
}

/// A union of one child disappears: its binary form is its child's.
pub proof fn lemma_single_child_union<E, B: BoundingVolume>(
    d: SdfNode<E, B>,
    e: ExpandedSdfNode<E, B>,
    child_form: ExpandedSdfNode<E, B>,
)
    requires
        d.info.is_union,
        !d.info.is_primitive,
        d.slots@.len() == 1,
        d.expands_to(e),
        d.slots@[0].expands_to(child_form),
    ensures
        e == child_form,
{
    assert(all_indices(1).len() == 1);
    assert(all_indices(1)[0] == 0);
    assert(d.union_expands_to(all_indices(1), e));
    assert(d.slots@[0].expands_to(e));
    lemma_expansion_unique(d.slots@[0], e, child_form);
}

} // verus!
