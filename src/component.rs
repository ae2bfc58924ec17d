//! The flat form of an expanded tree: two parallel arrays recording the
//! entry and the exit of each node in a depth-first walk, for evaluation by
//! a stack machine.
use vstd::prelude::*;
use crate::element::SdfElementInfo;
use crate::expanded_node::ExpandedSdfNode;

verus! {

/// The record of entering a node. `op_specific` is the node's element,
/// from which the operator's parameters are read.
pub struct SdfOperationBlock<E, B> {
    pub op_code: u32,
    pub is_primitive: bool,
    pub parent_is_union: bool,
    /// Number of records after this one that belong to this node's subtree.
    pub len: u32,
    /// Depth from the root, which is at level 1.
    pub level: u32,
    pub op_specific: E,
    pub bounding_box: B,
    /// The volume a pruning test compares against: the sibling's under a
    /// union, the node's own otherwise.
    pub other_box: B,
}

/// The record of leaving a node.
pub struct SdfOperationUptreeBlock<E> {
    pub op_code: u32,
    pub parent_is_union: bool,
    pub op_specific: E,
    pub level: u32,
}

/// A flattened tree: entry records in pre-order, exit records in
/// post-order, one of each per node.
pub struct SdfTreeBuffer<E, B> {
    pub downtree_buffer: Vec<SdfOperationBlock<E, B>>,
    pub uptree_buffer: Vec<SdfOperationUptreeBlock<E>>,
    pub buffer_len: u32,
}

/// The volume recorded beside `node` for pruning: its sibling's when the
/// parent is a union, its own otherwise.
pub open spec fn pruning_box<E, B>(
    parent_is_union: bool,
    node: ExpandedSdfNode<E, B>,
    sibling: ExpandedSdfNode<E, B>,
) -> B {
    if parent_is_union {
        sibling.bbox_spec()
    } else {
        node.bbox_spec()
    }
}

pub open spec fn entry_block<E, B>(
    info: SdfElementInfo,
    parent_is_union: bool,
    len: nat,
    level: nat,
    intern: E,
    bbox: B,
    other_box: B,
) -> SdfOperationBlock<E, B> {
    SdfOperationBlock {
        op_code: info.op_id,
        is_primitive: info.is_primitive,
        parent_is_union,
        len: len as u32,
        level: level as u32,
        op_specific: intern,
        bounding_box: bbox,
        other_box,
    }
}

pub open spec fn exit_block<E>(
    info: SdfElementInfo,
    parent_is_union: bool,
    level: nat,
    intern: E,
) -> SdfOperationUptreeBlock<E> {
    SdfOperationUptreeBlock { op_code: info.op_id, parent_is_union, op_specific: intern, level: level as u32 }
}

/// Entry records of the subtree `node` entered at `level`, in pre-order.
pub open spec fn down_tour<E, B>(
    node: ExpandedSdfNode<E, B>,
    level: nat,
    parent_is_union: bool,
    other_box: B,
) -> Seq<SdfOperationBlock<E, B>>
    decreases node,
{
    match node {
        ExpandedSdfNode::Null { .. } => Seq::empty(),
        ExpandedSdfNode::Primitive { bbox, intern, info } => seq![
            entry_block(info, parent_is_union, 0, level, intern, bbox, other_box),
        ],
        ExpandedSdfNode::Operation { bbox, intern, info, left, right } => seq![
            entry_block(
                info,
                parent_is_union,
                left.size() + right.size(),
                level,
                intern,
                bbox,
                other_box,
            ),
        ] + down_tour(*left, level + 1, info.is_union, pruning_box(info.is_union, *left, *right))
            + down_tour(*right, level + 1, info.is_union, pruning_box(info.is_union, *right, *left)),
    }
}

/// Exit records of the subtree `node` entered at `level`, in post-order.
pub open spec fn up_tour<E, B>(
    node: ExpandedSdfNode<E, B>,
    level: nat,
    parent_is_union: bool,
) -> Seq<SdfOperationUptreeBlock<E>>
    decreases node,
{
    match node {
        ExpandedSdfNode::Null { .. } => Seq::empty(),
        ExpandedSdfNode::Primitive { intern, info, .. } => seq![
            exit_block(info, parent_is_union, level, intern),
        ],
        ExpandedSdfNode::Operation { intern, info, left, right, .. } => up_tour(
            *left,
            level + 1,
            info.is_union,
        ) + up_tour(*right, level + 1, info.is_union) + seq![
            exit_block(info, parent_is_union, level, intern),
        ],
    }
}

/// Each walk holds one record per non-null node.
pub proof fn lemma_tour_lengths<E, B>(
    node: ExpandedSdfNode<E, B>,
    level: nat,
    parent_is_union: bool,
    other_box: B,
)
    ensures
        down_tour(node, level, parent_is_union, other_box).len() == node.size(),
        up_tour(node, level, parent_is_union).len() == node.size(),
    decreases node,
{
    if let ExpandedSdfNode::Operation { info, left, right, .. } = node {
        lemma_tour_lengths(*left, level + 1, info.is_union, pruning_box(info.is_union, *left, *right));
        lemma_tour_lengths(
            *right,
            level + 1,
            info.is_union,
            pruning_box(info.is_union, *right, *left),
        );
    }
}

impl<E, B> SdfTreeBuffer<E, B> {
    /// A buffer with no records.
    pub fn make_empty() -> (r: Self)
        ensures
            r.downtree_buffer@.len() == 0,
            r.uptree_buffer@.len() == 0,
            r.buffer_len == 0,
    {
        SdfTreeBuffer { downtree_buffer: Vec::new(), uptree_buffer: Vec::new(), buffer_len: 0 }
    }
}

/// Appends the records of the subtree `node`, entered at `level`.
fn push_tour<E: Copy, B: Copy>(
    buffer: &mut SdfTreeBuffer<E, B>,
    node: &ExpandedSdfNode<E, B>,
    other_box: B,
    level: u32,
    parent_is_union: bool,
)
    requires
        level + node.size() <= u32::MAX,
        old(buffer).downtree_buffer@.len() + node.size() <= usize::MAX,
    ensures
        final(buffer).downtree_buffer@ == old(buffer).downtree_buffer@ + down_tour(
            *node,
            level as nat,
            parent_is_union,
            other_box,
        ),
        final(buffer).uptree_buffer@ == old(buffer).uptree_buffer@ + up_tour(
            *node,
            level as nat,
            parent_is_union,
        ),
        final(buffer).buffer_len == old(buffer).buffer_len,
    decreases node,
{
    match node {
        ExpandedSdfNode::Null { .. } => {
            assert(buffer.downtree_buffer@ =~= old(buffer).downtree_buffer@ + Seq::empty());
            assert(buffer.uptree_buffer@ =~= old(buffer).uptree_buffer@ + Seq::empty());
        },
        ExpandedSdfNode::Primitive { bbox, intern, info } => {
            buffer.downtree_buffer.push(
                SdfOperationBlock {
                    op_code: info.op_id,
                    is_primitive: info.is_primitive,
                    parent_is_union,
                    len: 0,
                    level,
                    op_specific: *intern,
                    bounding_box: *bbox,
                    other_box,
                },
            );
            buffer.uptree_buffer.push(
                SdfOperationUptreeBlock {
                    op_code: info.op_id,
                    parent_is_union,
                    op_specific: *intern,
                    level,
                },
            );
            assert(buffer.downtree_buffer@ =~= old(buffer).downtree_buffer@ + down_tour(
                *node,
                level as nat,
                parent_is_union,
                other_box,
            ));
            assert(buffer.uptree_buffer@ =~= old(buffer).uptree_buffer@ + up_tour(
                *node,
                level as nat,
                parent_is_union,
            ));
        },
        ExpandedSdfNode::Operation { bbox, intern, info, left, right } => {
            let this_ind = buffer.downtree_buffer.len();
            buffer.downtree_buffer.push(
                SdfOperationBlock {
                    op_code: info.op_id,
                    is_primitive: info.is_primitive,
                    parent_is_union,
                    len: 0,
                    level,
                    op_specific: *intern,
                    bounding_box: *bbox,
                    other_box,
                },
            );
            let left_other = if info.is_union {
                right.bbox()
            } else {
                left.bbox()
            };
            let right_other = if info.is_union {
                left.bbox()
            } else {
                right.bbox()
            };
            proof {
                lemma_tour_lengths(**left, (level + 1) as nat, info.is_union, left_other);
                lemma_tour_lengths(**right, (level + 1) as nat, info.is_union, right_other);
            }
            push_tour(buffer, left, left_other, level + 1, info.is_union);
            push_tour(buffer, right, right_other, level + 1, info.is_union);
            buffer.uptree_buffer.push(
                SdfOperationUptreeBlock {
                    op_code: info.op_id,
                    parent_is_union,
                    op_specific: *intern,
                    level,
                },
            );
            let sub_len = buffer.downtree_buffer.len() - this_ind - 1;
            buffer.downtree_buffer.set(
                this_ind,
                SdfOperationBlock {
                    op_code: info.op_id,
                    is_primitive: info.is_primitive,
                    parent_is_union,
                    len: sub_len as u32,
                    level,
                    op_specific: *intern,
                    bounding_box: *bbox,
                    other_box,
                },
            );
            assert(buffer.downtree_buffer@ =~= old(buffer).downtree_buffer@ + down_tour(
                *node,
                level as nat,
                parent_is_union,
                other_box,
            ));
            assert(buffer.uptree_buffer@ =~= old(buffer).uptree_buffer@ + up_tour(
                *node,
                level as nat,
                parent_is_union,
            ));
        },
    }
}

impl<E: Copy, B: Copy> ExpandedSdfNode<E, B> {
    /// The flat form of this tree, with the root at level 1.
    pub fn make_buffer(&self) -> (r: SdfTreeBuffer<E, B>)
        requires
            self.size() < u32::MAX,
        ensures
            r.downtree_buffer@ == down_tour(*self, 1, false, self.bbox_spec()),
            r.uptree_buffer@ == up_tour(*self, 1, false),
            r.buffer_len == self.size(),
    {
        let mut buffer = SdfTreeBuffer::make_empty();
        let own = self.bbox();
        push_tour(&mut buffer, self, own, 1, false);
        proof {
            lemma_tour_lengths(*self, 1, false, own);
            assert(buffer.downtree_buffer@ =~= down_tour(*self, 1, false, self.bbox_spec()));
            assert(buffer.uptree_buffer@ =~= up_tour(*self, 1, false));
        }
        buffer.buffer_len = buffer.downtree_buffer.len() as u32;
        buffer
    }
}

} // verus!
