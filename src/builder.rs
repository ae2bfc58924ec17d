//! Fluent assembly of a tree, with slot-arity and rigid-placement checks.
use vstd::prelude::*;
use crate::dense_node::{SdfNode, slot_bboxes};
use crate::element::{BoundingVolume, RigidTransform, SdfElement, SdfElementInfo};

verus! {

/// A node of a tree under assembly.
pub struct BuildingSdfNode<E, T> {
    pub slots: Vec<BuildingSdfNode<E, T>>,
    pub intern: E,
    pub info: SdfElementInfo,
    pub transform: T,
}

impl<E, T> BuildingSdfNode<E, T> {
    /// Every node of the tree has all the children its element requires.
    pub open spec fn is_complete(&self) -> bool
        decreases self,
    {
        &&& self.info.is_complete_with(self.slots@.len() as int)
        &&& forall|i: int| 0 <= i < self.slots@.len() ==> (#[trigger] self.slots@[i]).is_complete()
    }

    /// `dense` holds the elements of this tree, in the same shape; each
    /// node's volume is its element's volume over its finalized children's,
    /// moved by the node's placement.
    pub open spec fn is_finalized_as<B>(&self, dense: SdfNode<E, B>) -> bool where
        E: SdfElement<B>,
        T: RigidTransform<B>,

        decreases self,
    {
        &&& dense.intern == self.intern
        &&& dense.info == self.info
        &&& dense.bbox == self.transform.apply_spec(self.intern.bbox_spec(slot_bboxes(dense.slots@)))
        &&& dense.slots@.len() == self.slots@.len()
        &&& forall|i: int|
            0 <= i < self.slots@.len() ==> (#[trigger] self.slots@[i]).is_finalized_as(
                dense.slots@[i],
            )
    }

    /// The same node with `node` appended to its children. The node must
    /// have a free slot: adding a child to a primitive or to a full operator
    /// is a fault of the caller.
    pub fn with(self, node: BuildingSdfNode<E, T>) -> (r: Self)
        requires
            self.info.accepts_slot(self.slots@.len() as int),
        ensures
            r.slots@ == self.slots@.push(node),
            r.intern == self.intern,
            r.info == self.info,
            r.transform == self.transform,
    {
        let mut n = self;
        n.slots.push(node);
        n
    }

    /// Whether every node of the tree has all the children its element
    /// requires, so that the tree may be finalized.
    pub fn is_complete_tree(&self) -> (r: bool)
        ensures
            r == self.is_complete(),
        decreases self,
    {
        if !self.info.is_complete(self.slots.len()) {
            return false;
        }
        let n = self.slots.len();
        let mut k: usize = 0;
        while k < n
            invariant
                n == self.slots@.len(),
                k <= n,
                self.info.is_complete_with(n as int),
                forall|i: int| 0 <= i < k ==> (#[trigger] self.slots@[i]).is_complete(),
            decreases n - k,
        {
            assert(decreases_to!(self => self.slots@[k as int]));
            if !self.slots[k].is_complete_tree() {
                return false;
            }
            k = k + 1;
        }
        true
    }
}

impl<E, T> BuildingSdfNode<E, T> {
    /// A leaf holding `prim`, which must be a primitive.
    pub fn primitive<B>(prim: E) -> (r: Self) where
        E: SdfElement<B>,
        T: RigidTransform<B>,

        requires
            prim.info_spec().is_primitive,
        ensures
            r.intern == prim,
            r.info == prim.info_spec(),
            r.slots@.len() == 0,
            r.transform == T::identity_spec(),
    {
        let info = prim.get_info();
        BuildingSdfNode { slots: Vec::new(), intern: prim, info, transform: T::identity() }
    }

    /// A new node of operator `op` whose first child is `self`. `op` must be
    /// an operator with at least one slot.
    pub fn operation<B>(self, op: E) -> (r: Self) where
        E: SdfElement<B>,
        T: RigidTransform<B>,

        requires
            !op.info_spec().is_primitive,
            op.info_spec().accepts_slot(0),
        ensures
            r.intern == op,
            r.info == op.info_spec(),
            r.slots@ == seq![self],
            r.transform == T::identity_spec(),
    {
        let info = op.get_info();
        let parent = BuildingSdfNode { slots: Vec::new(), intern: op, info, transform: T::identity() };
        parent.with(self)
    }

    /// The same node, its placement composed with `trans` (`trans` acting
    /// first). `trans` must keep sizes: its scale must be exactly one.
    pub fn transform<B>(self, trans: T) -> (r: Self) where
        T: RigidTransform<B>,

        requires
            trans.unit_scale_spec(),
        ensures
            r.slots@ == self.slots@,
            r.intern == self.intern,
            r.info == self.info,
            r.transform == self.transform.composed_with_spec(trans),
    {
        let placed = self.transform.composed_with(&trans);
        let mut n = self;
        n.transform = placed;
        n
    }

    /// The finalized tree, which must be complete (see `is_complete_tree`).
    /// Each node's volume is its element's volume over its children's,
    /// moved by the node's placement.
    pub fn finalize<B>(self) -> (r: SdfNode<E, B>) where
        E: SdfElement<B>,
        T: RigidTransform<B>,
        B: BoundingVolume,

        requires
            self.is_complete(),
        ensures
            self.is_finalized_as(r),
    {
        self.finalized()
    }

    /// The finalized copy of this tree (see `finalize`).
    pub fn finalized<B>(&self) -> (r: SdfNode<E, B>) where
        E: SdfElement<B>,
        T: RigidTransform<B>,
        B: BoundingVolume,

        requires
            self.is_complete(),
        ensures
            self.is_finalized_as(r),
        decreases self,
    {
        let n = self.slots.len();
        let mut done: Vec<SdfNode<E, B>> = Vec::new();
        let mut k: usize = 0;
        while k < n
            invariant
                n == self.slots@.len(),
                k <= n,
                done@.len() == k,
                self.is_complete(),
                forall|i: int| 0 <= i < k ==> (#[trigger] self.slots@[i]).is_finalized_as(done@[i]),
            decreases n - k,
        {
            assert(decreases_to!(self => self.slots@[k as int]));
            assert(self.slots@[k as int].is_complete());
            let d = self.slots[k].finalized();
            done.push(d);
            k = k + 1;
        }
        let boxes = SdfNode::<E, B>::bboxes_of(&done);
        let own = self.intern.get_bbox(&boxes);
        let bbox = self.transform.apply_to(&own);
        SdfNode { slots: done, bbox, intern: self.intern, info: self.info }
    }
}

/// An operator of exactly one slot cannot be finalized without a child, and
/// can be once it holds one complete child.
pub proof fn lemma_one_slot_operator_arity<E, T>(node: BuildingSdfNode<E, T>)
    requires
        !node.info.is_primitive,
        !node.info.is_union,
        node.info.num_acc_slots == 0,
        node.info.num_drawn_slots == 1,
    ensures
        node.slots@.len() == 0 ==> !node.is_complete(),
        node.slots@.len() == 1 && node.slots@[0].is_complete() ==> node.is_complete(),
{
}

} // verus!
