//! The finalized n-ary tree: every node carries its own bounding volume.
use vstd::prelude::*;
use crate::element::{BoundingVolume, SdfElement, SdfElementInfo};

verus! {

/// A node of a finalized tree.
pub struct SdfNode<E, B> {
    pub slots: Vec<SdfNode<E, B>>,
    pub bbox: B,
    pub intern: E,
    pub info: SdfElementInfo,
}

/// The bounding volumes of `slots`, in order.
pub open spec fn slot_bboxes<E, B>(slots: Seq<SdfNode<E, B>>) -> Seq<B> {
    slots.map_values(|n: SdfNode<E, B>| n.bbox)
}

impl<E, B> SdfNode<E, B> {
    /// `self` and `other` hold the same elements, volumes and shape.
    pub open spec fn same_tree(&self, other: &Self) -> bool
        decreases self,
    {
        &&& self.bbox == other.bbox
        &&& self.intern == other.intern
        &&& self.info == other.info
        &&& self.slots@.len() == other.slots@.len()
        &&& forall|i: int|
            0 <= i < self.slots@.len() ==> (#[trigger] self.slots@[i]).same_tree(&other.slots@[i])
    }
}

impl<E: SdfElement<B>, B: BoundingVolume> SdfNode<E, B> {
    /// The volumes of `slots`, in order.
    pub fn bboxes_of(slots: &Vec<SdfNode<E, B>>) -> (r: Vec<B>)
        ensures
            r@ == slot_bboxes(slots@),
    {
        let mut boxes: Vec<B> = Vec::new();
        let mut i: usize = 0;
        while i < slots.len()
            invariant
                i <= slots@.len(),
                boxes@ == slot_bboxes(slots@.subrange(0, i as int)),
            decreases slots@.len() - i,
        {
            boxes.push(slots[i].bbox);
            i = i + 1;
            assert(slots@.subrange(0, i as int) =~= slots@.subrange(0, i - 1).push(
                slots@[i - 1],
            ));
        }
        assert(slots@.subrange(0, i as int) =~= slots@);
        boxes
    }

    /// A node of `intern` over `slots`; its volume is the one the element
    /// computes from its children's.
    pub fn from_slots(intern: E, slots: Vec<SdfNode<E, B>>) -> (r: Self)
        ensures
            r.slots@ == slots@,
            r.intern == intern,
            r.info == intern.info_spec(),
            r.bbox == intern.bbox_spec(slot_bboxes(slots@)),
    {
        let info = intern.get_info();
        let boxes = Self::bboxes_of(&slots);
        let bbox = intern.get_bbox(&boxes);
        SdfNode { slots, bbox, intern, info }
    }

    /// A childless node of `intern`.
    pub fn empty(intern: E) -> (r: Self)
        ensures
            r.slots@.len() == 0,
            r.intern == intern,
            r.info == intern.info_spec(),
            r.bbox == intern.bbox_spec(Seq::empty()),
    {
        let slots: Vec<SdfNode<E, B>> = Vec::new();
        assert(slot_bboxes(slots@) =~= Seq::empty());
        Self::from_slots(intern, slots)
    }

    pub fn is_primitive(&self) -> (r: bool)
        ensures
            r == self.info.is_primitive,
    {
        self.info.is_primitive
    }

    pub fn is_empty(&self) -> (r: bool)
        ensures
            r == (self.slots@.len() == 0),
    {
        self.slots.len() == 0
    }

    /// A deep copy of the tree.
    pub fn full_clone(&self) -> (r: Self)
        ensures
            r.same_tree(self),
        decreases self,
    {
        let mut slots: Vec<SdfNode<E, B>> = Vec::new();
        let mut i: usize = 0;
        while i < self.slots.len()
            invariant
                i <= self.slots@.len(),
                slots@.len() == i,
                forall|k: int| 0 <= k < i ==> (#[trigger] slots@[k]).same_tree(&self.slots@[k]),
            decreases self.slots@.len() - i,
        {
            assert(decreases_to!(self => self.slots@[i as int]));
            let child = self.slots[i].full_clone();
            slots.push(child);
            i = i + 1;
        }
        SdfNode { slots, bbox: self.bbox, intern: self.intern, info: self.info }
    }
}

} // verus!
