use sdf::builder::BuildingSdfNode;
use sdf::dense_node::SdfNode;
use sdf::element::{BoundingVolume, RigidTransform, SdfElement, SdfElementInfo};

#[derive(Clone, Copy, Debug, PartialEq)]
pub struct AaBox {
    pub min: [f32; 3],
    pub max: [f32; 3],
}

fn ordered_bits(f: f32) -> u32 {
    let b = f.to_bits();
    if b & 0x8000_0000 != 0 {
        !b
    } else {
        b | 0x8000_0000
    }
}

impl BoundingVolume for AaBox {
    fn zero() -> Self {
        AaBox { min: [0.0; 3], max: [0.0; 3] }
    }

    fn merge(boxes: &Vec<Self>) -> Self {
        if boxes.is_empty() {
            return Self::zero();
        }
        let mut r = boxes[0];
        for b in boxes.iter() {
            for a in 0..3 {
                r.min[a] = r.min[a].min(b.min[a]);
                r.max[a] = r.max[a].max(b.max[a]);
            }
        }
        r
    }

    fn split_key(&self, other: &Self) -> u32 {
        let ext: Vec<f32> = (0..3).map(|a| self.max[a] - self.min[a]).collect();
        let axis = if ext[0] >= ext[1] && ext[0] >= ext[2] {
            0
        } else if ext[1] >= ext[2] {
            1
        } else {
            2
        };
        ordered_bits((other.min[axis] + other.max[axis]) / 2.0)
    }
}

#[derive(Clone, Copy, Debug, PartialEq)]
pub struct Shift {
    pub offset: [f32; 3],
    pub scale: [f32; 3],
}

impl Shift {
    pub fn translate(x: f32, y: f32, z: f32) -> Self {
        Shift { offset: [x, y, z], scale: [1.0; 3] }
    }
}

impl RigidTransform<AaBox> for Shift {
    fn identity() -> Self {
        Shift::translate(0.0, 0.0, 0.0)
    }

    fn composed_with(&self, next: &Self) -> Self {
        let mut r = *self;
        for a in 0..3 {
            r.offset[a] += next.offset[a];
            r.scale[a] *= next.scale[a];
        }
        r
    }

    fn has_unit_scale(&self) -> bool {
        self.scale == [1.0, 1.0, 1.0]
    }

    fn apply_to(&self, bbox: &AaBox) -> AaBox {
        let mut r = *bbox;
        for a in 0..3 {
            r.min[a] += self.offset[a];
            r.max[a] += self.offset[a];
        }
        r
    }
}

#[derive(Clone, Copy, Debug, PartialEq)]
pub enum TestElement {
    Sphere { radius: f32 },
    Union { smooth_radius: f32 },
    Clone1,
    NoSlots,
}

impl SdfElement<AaBox> for TestElement {
    fn get_info(&self) -> SdfElementInfo {
        match self {
            TestElement::Sphere { .. } => SdfElementInfo::primitive_info(0),
            TestElement::Union { .. } => SdfElementInfo::union_info(0),
            TestElement::Clone1 => SdfElementInfo::strict_info(1, 0, 1),
            TestElement::NoSlots => SdfElementInfo::strict_info(2, 0, 0),
        }
    }

    fn get_bbox(&self, slot_bboxes: &Vec<AaBox>) -> AaBox {
        match self {
            TestElement::Sphere { radius } => AaBox { min: [-radius; 3], max: [*radius; 3] },
            TestElement::Union { .. } => AaBox::merge(slot_bboxes),
            TestElement::Clone1 => slot_bboxes.first().copied().unwrap_or(AaBox::zero()),
            TestElement::NoSlots => AaBox::zero(),
        }
    }
}

type Node = BuildingSdfNode<TestElement, Shift>;
type Dense = SdfNode<TestElement, AaBox>;

const SPHERE: TestElement = TestElement::Sphere { radius: 1.0 };
const UNION: TestElement = TestElement::Union { smooth_radius: 0.0 };

fn leaf(e: TestElement) -> Node {
    Node::primitive(e)
}

fn do_sdf_build_flat(prim: TestElement, transforms: Vec<Shift>) -> Dense {
    let mut root_union = Node {
        slots: Vec::new(),
        intern: UNION,
        info: SdfElementInfo::union_info(0),
        transform: Shift::identity(),
    };
    for trans in transforms.iter() {
        root_union = root_union.with(leaf(prim).transform(*trans));
    }
    root_union.finalize()
}

fn do_sdf_build_tall(prim: TestElement, transforms: Vec<Shift>) -> Dense {
    let mut cur_root = leaf(prim);
    for trans in transforms.iter() {
        cur_root = cur_root.transform(*trans).operation(UNION);
    }
    cur_root.finalize()
}

fn do_sdf_build_single(prim: TestElement, trans: Shift) -> Dense {
    leaf(prim).transform(trans).finalize()
}

#[test]
fn test_builder_single() {
    let prim = SPHERE;
    let root_node = do_sdf_build_single(prim, Shift::identity());
    assert!(root_node.intern == prim, "Expected node internal element isn't correct!");
}

#[test]
fn test_builder_flat() {
    const TEST_NUM_PRIMS: usize = 16;
    let prim = SPHERE;
    let root_node = do_sdf_build_flat(prim, (0..TEST_NUM_PRIMS).map(|_| Shift::identity()).collect());
    assert!(
        root_node.slots.len() == TEST_NUM_PRIMS,
        "Number of slots not correct! Expected: {}, Found: {}!",
        TEST_NUM_PRIMS,
        root_node.slots.len()
    );
    for (i, child_prim) in root_node.slots.iter().enumerate() {
        assert!(child_prim.intern == prim, "Primitive at slot {} isn't correct!", i,);
    }
}

#[test]
fn test_builder_tall() {
    const TEST_HEIGHT: usize = 16;
    let prim = SPHERE;
    let mut root_node = do_sdf_build_tall(prim, (0..TEST_HEIGHT).map(|_| Shift::identity()).collect());
    for i in 0..TEST_HEIGHT {
        assert!(
            root_node.slots.len() == 1,
            "Number of slots for depth {} isn't correct! Expected 1, Found: {}!",
            i,
            root_node.slots.len()
        );
        root_node = root_node.slots.remove(0);
    }
    assert!(root_node.intern == prim, "Expected bottom node internal element isn't correct!");
}

#[test]
fn primitive_requires_a_primitive_element() {
    assert!(SPHERE.get_info().is_primitive);
    assert!(!UNION.get_info().is_primitive);
    assert!(!TestElement::Clone1.get_info().is_primitive);
}

#[test]
fn operation_requires_an_operator_with_a_slot() {
    let fits = |e: TestElement| !e.get_info().is_primitive && e.get_info().can_take_slot(0);
    assert!(fits(UNION));
    assert!(fits(TestElement::Clone1));
    assert!(!fits(SPHERE));
    assert!(!fits(TestElement::NoSlots));
}

#[test]
fn with_requires_a_free_slot() {
    let prim = leaf(SPHERE);
    assert!(!prim.info.can_take_slot(prim.slots.len()));
    let clone = leaf(SPHERE).operation(TestElement::Clone1);
    assert_eq!(clone.slots.len(), 1);
    assert!(!clone.info.can_take_slot(clone.slots.len()));
    let union = leaf(SPHERE).operation(UNION);
    assert!(union.info.can_take_slot(union.slots.len()));
    assert_eq!(union.with(leaf(SPHERE)).slots.len(), 2);
}

#[test]
fn transform_rejects_non_unit_scale() {
    let stretch = Shift { offset: [0.0; 3], scale: [2.0, 1.0, 1.0] };
    assert!(!stretch.has_unit_scale());
    let nearly = Shift { offset: [0.0; 3], scale: [1.0000001, 1.0, 1.0] };
    assert!(!nearly.has_unit_scale());
    assert!(Shift::translate(3.0, 0.0, 0.0).has_unit_scale());
}

#[test]
fn transform_moves_the_finalized_volume() {
    let node = leaf(SPHERE).transform(Shift::translate(5.0, 0.0, 0.0));
    let node = node.transform(Shift::translate(0.0, 1.0, 0.0));
    let dense: Dense = node.finalize();
    assert_eq!(dense.bbox, AaBox { min: [4.0, 0.0, -1.0], max: [6.0, 2.0, 1.0] });
}

#[test]
fn finalize_strict_operator_arity() {
    let empty_clone = Node {
        slots: Vec::new(),
        intern: TestElement::Clone1,
        info: SdfElementInfo::strict_info(1, 0, 1),
        transform: Shift::identity(),
    };
    assert!(!empty_clone.is_complete_tree());
    let full_clone = leaf(SPHERE).operation(TestElement::Clone1);
    assert!(full_clone.is_complete_tree());
    let dense: Dense = full_clone.finalize();
    assert_eq!(dense.slots.len(), 1);
    assert_eq!(dense.intern, TestElement::Clone1);
    assert_eq!(dense.slots[0].intern, SPHERE);
    assert!(dense.slots[0].slots.is_empty());
}

#[test]
fn completeness_sees_incomplete_descendant() {
    let empty_clone = Node {
        slots: Vec::new(),
        intern: TestElement::Clone1,
        info: SdfElementInfo::strict_info(1, 0, 1),
        transform: Shift::identity(),
    };
    let root = empty_clone.operation(UNION).with(leaf(SPHERE));
    assert!(!root.is_complete_tree());
    assert!(leaf(SPHERE).operation(UNION).with(leaf(SPHERE)).is_complete_tree());
}

#[test]
fn empty_union_finalizes() {
    let dense: Dense = Node {
        slots: Vec::new(),
        intern: UNION,
        info: SdfElementInfo::union_info(0),
        transform: Shift::identity(),
    }
    .finalize()
    ;
    assert!(dense.is_empty());
    assert!(!dense.is_primitive());
    assert_eq!(dense.bbox, AaBox::zero());
}

#[test]
fn dense_union_volume_merges_children() {
    let dense = do_sdf_build_flat(
        SPHERE,
        vec![Shift::translate(-2.0, 0.0, 0.0), Shift::translate(2.0, 0.0, 0.0)],
    );
    assert_eq!(dense.bbox, AaBox { min: [-3.0, -1.0, -1.0], max: [3.0, 1.0, 1.0] });
    assert_eq!(dense.slots[0].bbox, AaBox { min: [-3.0, -1.0, -1.0], max: [-1.0, 1.0, 1.0] });
}

#[test]
fn full_clone_copies_every_node() {
    let dense = do_sdf_build_tall(SPHERE, vec![Shift::translate(1.0, 0.0, 0.0); 3]);
    let copy = dense.full_clone();
    let (mut a, mut b) = (&dense, &copy);
    loop {
        assert_eq!(a.intern, b.intern);
        assert_eq!(a.bbox, b.bbox);
        assert_eq!(a.info, b.info);
        assert_eq!(a.slots.len(), b.slots.len());
        if a.slots.is_empty() {
            break;
        }
        a = &a.slots[0];
        b = &b.slots[0];
    }
}

#[test]
fn from_slots_computes_volume() {
    let s = Dense::empty(TestElement::Sphere { radius: 2.0 });
    assert!(s.is_primitive());
    assert_eq!(s.bbox, AaBox { min: [-2.0; 3], max: [2.0; 3] });
    let u = Dense::from_slots(UNION, vec![s]);
    assert_eq!(u.bbox, AaBox { min: [-2.0; 3], max: [2.0; 3] });
    assert_eq!(u.info, SdfElementInfo::union_info(0));
}

use sdf::expanded_node::ExpandedSdfNode;

type Expanded = ExpandedSdfNode<TestElement, AaBox>;

fn three_in_a_row() -> Dense {
    do_sdf_build_flat(
        SPHERE,
        vec![
            Shift::translate(-4.0, 0.0, 0.0),
            Shift::translate(0.0, 0.0, 0.0),
            Shift::translate(4.0, 0.0, 0.0),
        ],
    )
}

fn sphere_box_at(x: f32) -> AaBox {
    AaBox { min: [x - 1.0, -1.0, -1.0], max: [x + 1.0, 1.0, 1.0] }
}

fn children(e: &Expanded) -> (&Expanded, &Expanded) {
    match e {
        ExpandedSdfNode::Operation { left, right, .. } => (left, right),
        _ => panic!("not an operation"),
    }
}

#[test]
fn expand_primitive_keeps_it() {
    let dense = do_sdf_build_single(SPHERE, Shift::translate(1.0, 0.0, 0.0));
    let e = dense.expanded();
    assert!(e.is_primitive());
    assert!(!e.is_union());
    assert_eq!(e.bbox(), sphere_box_at(1.0));
}

#[test]
fn expand_empty_union_is_null() {
    let dense = do_sdf_build_flat(SPHERE, vec![]);
    let e = dense.expanded();
    assert!(e.is_null());
    assert_eq!(e.bbox(), AaBox::zero());
}

#[test]
fn expand_single_child_union_disappears() {
    let dense = do_sdf_build_flat(SPHERE, vec![Shift::translate(3.0, 0.0, 0.0)]);
    let e = dense.expanded();
    assert!(e.is_primitive());
    assert_eq!(e.bbox(), sphere_box_at(3.0));
}

#[test]
fn expand_union_splits_at_median_along_longest_axis() {
    let e = three_in_a_row().expanded();
    assert!(e.is_union());
    assert_eq!(e.bbox(), AaBox { min: [-5.0, -1.0, -1.0], max: [5.0, 1.0, 1.0] });
    let (upper, lower) = children(&e);
    assert!(lower.is_primitive());
    assert_eq!(lower.bbox(), sphere_box_at(-4.0));
    assert!(upper.is_union());
    let (far, mid) = children(upper);
    assert_eq!(far.bbox(), sphere_box_at(4.0));
    assert_eq!(mid.bbox(), sphere_box_at(0.0));
}

#[test]
fn expand_sixteen_children_is_balanced() {
    let shifts: Vec<Shift> = (0..16).map(|i| Shift::translate(3.0 * i as f32, 0.0, 0.0)).collect();
    let e = do_sdf_build_flat(SPHERE, shifts).expanded();
    fn depth_range(e: &Expanded) -> (usize, usize, usize) {
        match e {
            ExpandedSdfNode::Operation { left, right, .. } => {
                let (a, b, n) = depth_range(left);
                let (c, d, m) = depth_range(right);
                (a.min(c) + 1, b.max(d) + 1, n + m)
            },
            ExpandedSdfNode::Primitive { .. } => (0, 0, 1),
            ExpandedSdfNode::Null { .. } => (0, 0, 0),
        }
    }
    assert_eq!(depth_range(&e), (4, 4, 16));
}

#[test]
fn expand_strict_operator_takes_child_volume() {
    let dense: Dense = leaf(SPHERE)
        .transform(Shift::translate(0.0, 2.0, 0.0))
        
        .operation(TestElement::Clone1)
        
        .finalize()
        ;
    let e = dense.expanded();
    assert!(e.is_operation());
    assert!(!e.is_union());
    let (l, r) = children(&e);
    assert!(l.is_primitive());
    assert!(r.is_null());
    assert_eq!(e.bbox(), l.bbox());
}

#[test]
fn constructors_of_expanded_nodes() {
    let p = Expanded::primitive(sphere_box_at(0.0), SPHERE);
    assert!(p.is_primitive());
    let s = Expanded::simple_operation(p, TestElement::Clone1);
    assert!(s.is_operation());
    assert_eq!(s.bbox(), sphere_box_at(0.0));
    let q = Expanded::primitive(sphere_box_at(2.0), SPHERE);
    let u = Expanded::operation(s, q, AaBox::zero(), UNION);
    assert!(u.is_union());
    assert!(Expanded::null().is_null());
}

#[test]
fn buffer_of_three_spheres() {
    let e = three_in_a_row().expanded();
    let buf = e.make_buffer();
    assert_eq!(buf.buffer_len, 5);
    assert_eq!(buf.downtree_buffer.len(), 5);
    assert_eq!(buf.uptree_buffer.len(), 5);
    let levels: Vec<u32> = buf.downtree_buffer.iter().map(|b| b.level).collect();
    assert_eq!(levels, vec![1, 2, 3, 3, 2]);
    let lens: Vec<u32> = buf.downtree_buffer.iter().map(|b| b.len).collect();
    assert_eq!(lens, vec![4, 2, 0, 0, 0]);
    let prims: Vec<bool> = buf.downtree_buffer.iter().map(|b| b.is_primitive).collect();
    assert_eq!(prims, vec![false, false, true, true, true]);
    let piu: Vec<bool> = buf.downtree_buffer.iter().map(|b| b.parent_is_union).collect();
    assert_eq!(piu, vec![false, true, true, true, true]);
    // Under a union, the pruning volume is the sibling's.
    assert_eq!(buf.downtree_buffer[2].bounding_box, sphere_box_at(4.0));
    assert_eq!(buf.downtree_buffer[2].other_box, sphere_box_at(0.0));
    assert_eq!(buf.downtree_buffer[3].other_box, sphere_box_at(4.0));
    assert_eq!(buf.downtree_buffer[4].other_box, AaBox { min: [-1.0, -1.0, -1.0], max: [5.0, 1.0, 1.0] });
    assert_eq!(buf.downtree_buffer[1].other_box, sphere_box_at(-4.0));
    let up_levels: Vec<u32> = buf.uptree_buffer.iter().map(|b| b.level).collect();
    assert_eq!(up_levels, vec![3, 3, 2, 2, 1]);
    let up_ops: Vec<u32> = buf.uptree_buffer.iter().map(|b| b.op_code).collect();
    assert_eq!(up_ops, vec![0, 0, 0, 0, 0]);
    assert_eq!(buf.uptree_buffer[4].op_specific, UNION);
}

#[test]
fn buffer_of_strict_operator_skips_null_child() {
    let dense: Dense = leaf(SPHERE).operation(TestElement::Clone1).finalize();
    let buf = dense.expanded().make_buffer();
    assert_eq!(buf.buffer_len, 2);
    assert_eq!(buf.downtree_buffer[0].op_code, 1);
    assert_eq!(buf.downtree_buffer[0].len, 1);
    assert_eq!(buf.downtree_buffer[1].level, 2);
    assert!(!buf.downtree_buffer[1].parent_is_union);
    assert_eq!(buf.downtree_buffer[1].other_box, buf.downtree_buffer[1].bounding_box);
    assert_eq!(buf.uptree_buffer[1].op_code, 1);
    assert_eq!(buf.uptree_buffer[1].level, 1);
}

#[test]
fn buffer_of_null_is_empty() {
    let buf = Expanded::null().make_buffer();
    assert_eq!(buf.buffer_len, 0);
    assert!(buf.downtree_buffer.is_empty());
    assert!(buf.uptree_buffer.is_empty());
}

#[test]
fn operation_needs_a_free_slot() {
    let info = TestElement::NoSlots.get_info();
    assert!(!info.is_primitive);
    assert!(!info.can_take_slot(0));
}

#[test]
fn operation_starts_with_identity_placement() {
    let n = leaf(SPHERE).transform(Shift::translate(1.0, 0.0, 0.0)).operation(UNION);
    assert_eq!(n.transform, Shift::identity());
    assert_eq!(n.info, SdfElementInfo::union_info(0));
    assert_eq!(n.slots[0].transform, Shift::translate(1.0, 0.0, 0.0));
}

#[test]
fn tall_chain_of_translations_moves_only_the_leaf() {
    let mut root = do_sdf_build_tall(SPHERE, vec![Shift::translate(1.0, 0.0, 0.0); 16]);
    for _ in 0..16 {
        assert_eq!(root.slots.len(), 1);
        assert_eq!(root.intern, UNION);
        root = root.slots.remove(0);
    }
    assert_eq!(root.intern, SPHERE);
    assert_eq!(root.bbox, sphere_box_at(1.0));
}
