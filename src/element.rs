//! What the tree needs to know of its primitives and operators, and of the
//! geometry (bounding volumes and rigid transforms) they are placed with.
use vstd::prelude::*;

verus! {

/// Arity and kind of a tree element.
#[derive(Clone, Copy, Debug, PartialEq, Eq, Structural)]
pub struct SdfElementInfo {
    pub num_acc_slots: usize,
    pub num_drawn_slots: usize,
    pub is_primitive: bool,
    pub op_id: u32,
    pub is_union: bool,
}

impl SdfElementInfo {
    /// Total number of child slots.
    pub open spec fn slot_count(&self) -> int {
        self.num_acc_slots + self.num_drawn_slots
    }

    /// A node of this kind that holds `filled` children can take one more.
    pub open spec fn accepts_slot(&self, filled: int) -> bool {
        !self.is_primitive && filled < self.slot_count()
    }

    /// A node of this kind that holds `filled` children may be finalized.
    pub open spec fn is_complete_with(&self, filled: int) -> bool {
        self.is_union || filled >= self.slot_count()
    }

    /// A leaf element with operation code `op_id`.
    pub fn primitive_info(op_id: u32) -> (r: Self)
        ensures
            r == (SdfElementInfo {
                num_acc_slots: 0,
                num_drawn_slots: 0,
                is_primitive: true,
                op_id,
                is_union: false,
            }),
    {
        SdfElementInfo {
            num_acc_slots: 0,
            num_drawn_slots: 0,
            is_primitive: true,
            op_id,
            is_union: false,
        }
    }

    /// An operator with a fixed number of accumulated and drawn slots.
    pub fn strict_info(op_id: u32, num_acc_slots: usize, num_drawn_slots: usize) -> (r: Self)
        ensures
            r == (SdfElementInfo {
                num_acc_slots,
                num_drawn_slots,
                is_primitive: false,
                op_id,
                is_union: false,
            }),
    {
        SdfElementInfo { num_acc_slots, num_drawn_slots, is_primitive: false, op_id, is_union: false }
    }

    /// A union, which takes any number of children.
    pub fn union_info(op_id: u32) -> (r: Self)
        ensures
            r == (SdfElementInfo {
                num_acc_slots: 0,
                num_drawn_slots: usize::MAX,
                is_primitive: false,
                op_id,
                is_union: true,
            }),
    {
        SdfElementInfo {
            num_acc_slots: 0,
            num_drawn_slots: usize::MAX,
            is_primitive: false,
            op_id,
            is_union: true,
        }
    }

    /// Total number of child slots.
    pub fn num_slots(&self) -> (r: usize)
        requires
            self.slot_count() <= usize::MAX,
        ensures
            r == self.slot_count(),
    {
        self.num_acc_slots + self.num_drawn_slots
    }

    /// Whether a node of this kind holding `filled` children can take one more.
    pub fn can_take_slot(&self, filled: usize) -> (r: bool)
        ensures
            r == self.accepts_slot(filled as int),
    {
        if self.is_primitive {
            false
        } else if filled < self.num_acc_slots {
            true
        } else {
            filled - self.num_acc_slots < self.num_drawn_slots
        }
    }

    /// Whether a node of this kind holding `filled` children may be finalized.
    pub fn is_complete(&self, filled: usize) -> (r: bool)
        ensures
            r == self.is_complete_with(filled as int),
    {
        if self.is_union {
            true
        } else if filled < self.num_acc_slots {
            false
        } else {
            filled - self.num_acc_slots >= self.num_drawn_slots
        }
    }
}

/// An oriented bounding volume, as the tree uses it: fitted around a set of
/// volumes, and asked for an order along its own longest axis. Each method's
/// result is the named spec value of its arguments, and nothing more is
/// assumed of it. The names have unrevealed defaults, so that implementations
/// written outside verified code need not define them; generic code sees
/// only the names.
pub trait BoundingVolume: Sized + Copy {
    closed spec fn zero_spec() -> Self {
        arbitrary()
    }

    closed spec fn merge_spec(boxes: Seq<Self>) -> Self {
        arbitrary()
    }

    closed spec fn split_key_spec(&self, other: Self) -> u32 {
        arbitrary()
    }

    /// The degenerate volume, neutral in merges.
    fn zero() -> (r: Self)
        ensures
            r == Self::zero_spec(),
    ;

    /// A volume enclosing all of `boxes`; `zero()` when there are none.
    fn merge(boxes: &Vec<Self>) -> (r: Self)
        ensures
            r == Self::merge_spec(boxes@),
    ;

    /// Order key of `other`'s centre along this volume's longest axis:
    /// a larger key lies further along the axis.
    fn split_key(&self, other: &Self) -> (r: u32)
        ensures
            r == self.split_key_spec(*other),
    ;
}

/// A placement of an element in space. Each method's result is the named
/// spec value of its arguments, and nothing more is assumed of it (the names
/// have unrevealed defaults, as for `BoundingVolume`).
pub trait RigidTransform<B>: Sized + Copy {
    closed spec fn identity_spec() -> Self {
        arbitrary()
    }

    closed spec fn composed_with_spec(&self, next: Self) -> Self {
        arbitrary()
    }

    closed spec fn unit_scale_spec(&self) -> bool {
        arbitrary()
    }

    closed spec fn apply_spec(&self, bbox: B) -> B {
        arbitrary()
    }

    /// The placement that leaves everything where it is.
    fn identity() -> (r: Self)
        ensures
            r == Self::identity_spec(),
    ;

    /// The product of this placement and `next`: `next` acts first, then
    /// this placement.
    fn composed_with(&self, next: &Self) -> (r: Self)
        ensures
            r == self.composed_with_spec(*next),
    ;

    /// Whether the placement keeps sizes (its scale is exactly one).
    fn has_unit_scale(&self) -> (r: bool)
        ensures
            r == self.unit_scale_spec(),
    ;

    /// `bbox` moved by this placement.
    fn apply_to(&self, bbox: &B) -> (r: B)
        ensures
            r == self.apply_spec(*bbox),
    ;
}

/// A primitive or operator of a distance-field tree, with volumes of type
/// `B`. Each method's result is the named spec value of its arguments (the
/// names have unrevealed defaults, as for `BoundingVolume`).
pub trait SdfElement<B>: Sized + Copy {
    closed spec fn info_spec(&self) -> SdfElementInfo {
        arbitrary()
    }

    closed spec fn bbox_spec(&self, slot_bboxes: Seq<B>) -> B {
        arbitrary()
    }

    fn get_info(&self) -> (r: SdfElementInfo)
        ensures
            r == self.info_spec(),
    ;

    /// The volume this element covers, given those of its children.
    fn get_bbox(&self, slot_bboxes: &Vec<B>) -> (r: B)
        ensures
            r == self.bbox_spec(slot_bboxes@),
    ;
}

} // verus!
