//! The strict binary form of a tree, in which every operator has exactly two
//! child positions.
use vstd::prelude::*;
use crate::element::{BoundingVolume, SdfElement, SdfElementInfo};

verus! {

/// A node of an expanded tree.
pub enum ExpandedSdfNode<E, B> {
    /// An absent child.
    Null { bbox: B },
    /// A leaf.
    Primitive { bbox: B, intern: E, info: SdfElementInfo },
    /// An operator over two child positions; the right one is `Null` for
    /// operators of one slot.
    Operation {
        bbox: B,
        intern: E,
        info: SdfElementInfo,
        left: Box<ExpandedSdfNode<E, B>>,
        right: Box<ExpandedSdfNode<E, B>>,
    },
}

impl<E, B> ExpandedSdfNode<E, B> {
    pub open spec fn bbox_spec(&self) -> B {
        match self {
            ExpandedSdfNode::Null { bbox } => *bbox,
            ExpandedSdfNode::Primitive { bbox, .. } => *bbox,
            ExpandedSdfNode::Operation { bbox, .. } => *bbox,
        }
    }

    /// Number of non-null nodes.
    pub open spec fn size(&self) -> nat
        decreases self,
    {
        match self {
            ExpandedSdfNode::Null { .. } => 0,
            ExpandedSdfNode::Primitive { .. } => 1,
            ExpandedSdfNode::Operation { left, right, .. } => 1 + left.size() + right.size(),
        }
    }

    /// The node is a union operator.
    pub open spec fn is_union_spec(&self) -> bool {
        match self {
            ExpandedSdfNode::Operation { info, .. } => info.is_union,
            _ => false,
        }
    }

    /// The node's volume.
    pub fn bbox(&self) -> (r: B) where B: Copy
        ensures
            r == self.bbox_spec(),
    {
        match self {
            ExpandedSdfNode::Null { bbox } => *bbox,
            ExpandedSdfNode::Primitive { bbox, .. } => *bbox,
            ExpandedSdfNode::Operation { bbox, .. } => *bbox,
        }
    }

    /// The absent node; its volume is the degenerate one.
    pub fn null() -> (r: Self) where B: BoundingVolume
        ensures
            r == (ExpandedSdfNode::<E, B>::Null { bbox: B::zero_spec() }),
    {
        ExpandedSdfNode::Null { bbox: B::zero() }
    }

    /// A leaf of `intern` with volume `bbox`.
    pub fn primitive(bbox: B, intern: E) -> (r: Self) where E: SdfElement<B>
        ensures
            r == (ExpandedSdfNode::<E, B>::Primitive { bbox, intern, info: intern.info_spec() }),
    {
        let info = intern.get_info();
        ExpandedSdfNode::Primitive { bbox, intern, info }
    }

    /// A one-slot operator over `downtree_union`, with that child's volume.
    pub fn simple_operation(downtree_union: Self, intern: E) -> (r: Self) where
        E: SdfElement<B>,
        B: BoundingVolume,

        ensures
            r matches ExpandedSdfNode::Operation { bbox: b, intern: i, info: f, left: l, right: rt }
                && b == downtree_union.bbox_spec() && i == intern && f == intern.info_spec() && *l
                == downtree_union && *rt == (ExpandedSdfNode::<E, B>::Null { bbox: B::zero_spec() }),
    {
        let info = intern.get_info();
        let bbox = downtree_union.bbox();
        ExpandedSdfNode::Operation {
            bbox,
            intern,
            info,
            left: Box::new(downtree_union),
            right: Box::new(Self::null()),
        }
    }

    /// An operator over `left` and `right` with volume `bbox`.
    pub fn operation(left: Self, right: Self, bbox: B, intern: E) -> (r: Self) where
        E: SdfElement<B>,

        ensures
            r matches ExpandedSdfNode::Operation { bbox: b, intern: i, info: f, left: l, right: rt }
                && b == bbox && i == intern && f == intern.info_spec() && *l == left && *rt == right,
    {
        let info = intern.get_info();
        ExpandedSdfNode::Operation { bbox, intern, info, left: Box::new(left), right: Box::new(right) }
    }

    pub fn is_null(&self) -> (r: bool)
        ensures
            r == self is Null,
    {
        matches!(self, ExpandedSdfNode::Null { .. })
    }

    pub fn is_primitive(&self) -> (r: bool)
        ensures
            r == self is Primitive,
    {
        matches!(self, ExpandedSdfNode::Primitive { .. })
    }

    pub fn is_operation(&self) -> (r: bool)
        ensures
            r == self is Operation,
    {
        matches!(self, ExpandedSdfNode::Operation { .. })
    }

    pub fn is_union(&self) -> (r: bool)
        ensures
            r == self.is_union_spec(),
    {
        match self {
            ExpandedSdfNode::Operation { info, .. } => info.is_union,
            _ => false,
        }
    }
}

} // verus!
