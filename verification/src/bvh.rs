//! The bounding volume hierarchy: a binary tree over the objects of a scene,
//! each node with the box around what is below it.

use vstd::arithmetic::power2::{lemma2_to64, lemma_pow2_unfold, pow2};
use vstd::multiset::Multiset;
use vstd::prelude::*;
use vstd::seq_lib::{lemma_multiset_commutative, to_multiset_build};
use crate::aabb::{Interval, Slab, AABB};
use crate::geometry::{Hittable, Roots, Sphere};
use crate::scalar::{is_number, number};

verus! {

/// A node of the hierarchy: one or two children, each a sphere or a node, and
/// the box around them.
pub struct BVHNode {
    left: Hittable,
    right: Option<Hittable>,
    bbox: AABB,
}

/// `rand::Rng::gen_range` on `rand::thread_rng()` with the range
/// `0..bound`: a value of that range. The call panics on an empty range, so
/// a bound of zero is left out. Nothing is claimed of which value comes.
#[verifier::external_body]
fn random_below(bound: usize) -> (drawn: usize)
    requires
        bound > 0,
    ensures
        drawn < bound,
{
    rand::Rng::gen_range(&mut rand::thread_rng(), 0..bound)
}

/// The key by which objects are ordered along `axis`: the start of the
/// object's box on that axis.
pub open spec fn spec_sort_key(object: Hittable, axis: int) -> i64 {
    object.spec_bounding_box().spec_axis(axis).min
}

/// The key by which objects are ordered along `axis`.
pub fn sort_key(object: &Hittable, axis: usize) -> (k: i64)
    requires
        axis < 3,
    ensures
        k == spec_sort_key(*object, axis as int),
{
    object.bounding_box().axis(axis).min
}

/// Whether the box of `object` starts at a number on every axis, so that
/// the object can be put in order with others.
pub open spec fn comparable(object: Hittable) -> bool {
    forall|axis: int| 0 <= axis < 3 ==> is_number(#[trigger] spec_sort_key(object, axis))
}

/// Whether `objects` can be put in order along every axis: there is one at
/// most, or each of them is comparable.
pub open spec fn all_comparable(objects: Seq<Hittable>) -> bool {
    objects.len() > 1 ==> forall|i: int|
        0 <= i < objects.len() ==> comparable(#[trigger] objects[i])
}

/// Whether the box of `object` starts at a number on every axis.
pub fn is_comparable(object: &Hittable) -> (b: bool)
    ensures
        b == comparable(*object),
{
    let b = number(sort_key(object, 0)) && number(sort_key(object, 1)) && number(
        sort_key(object, 2),
    );
    proof {
        if b {
            assert forall|axis: int| 0 <= axis < 3 implies is_number(
                #[trigger] spec_sort_key(*object, axis),
            ) by {
                assert(axis == 0 || axis == 1 || axis == 2);
            }
        } else {
            assert(!is_number(spec_sort_key(*object, 0)) || !is_number(spec_sort_key(*object, 1))
                || !is_number(spec_sort_key(*object, 2)));
        }
    }
    b
}

/// Whether `objects` are in ascending order of their keys along `axis`.
pub open spec fn sorted_by(objects: Seq<Hittable>, axis: int) -> bool {
    forall|i: int, j: int|
        0 <= i <= j < objects.len() ==> spec_sort_key(#[trigger] objects[i], axis)
            <= spec_sort_key(#[trigger] objects[j], axis)
}

/// Whether `objects` are in descending order of their keys along `axis`.
pub open spec fn sorted_down_by(objects: Seq<Hittable>, axis: int) -> bool {
    forall|i: int, j: int|
        0 <= i <= j < objects.len() ==> spec_sort_key(#[trigger] objects[i], axis)
            >= spec_sort_key(#[trigger] objects[j], axis)
}

/// Whether `ordered` holds the objects of `objects`, each as often, in
/// ascending order along `axis`, one of the three axes.
pub open spec fn ordered_for(ordered: Seq<Hittable>, objects: Seq<Hittable>, axis: int) -> bool {
    &&& 0 <= axis < 3
    &&& ordered.len() == objects.len()
    &&& sorted_by(ordered, axis)
    &&& ordered.to_multiset() == objects.to_multiset()
}

/// Whether `node` holds the two objects as leaves, the one that starts first
/// along `axis` on the left, and on the left the first of them where they
/// start together.
pub open spec fn pair_for(node: BVHNode, first: Hittable, second: Hittable, axis: int) -> bool {
    &&& 0 <= axis < 3
    &&& if spec_sort_key(first, axis) <= spec_sort_key(second, axis) {
        node.view_left() == first && node.view_right() == Some(second)
    } else {
        node.view_left() == second && node.view_right() == Some(first)
    }
}

/// Whether `node` is a hierarchy over exactly `objects`, split as `new`
/// splits: one object alone is the left child; of two, the one that starts
/// first along some axis is the left child; more are put in order along some
/// axis and halved, the first half under a node on the left and the rest
/// under a node on the right. The box is the union of the children's boxes,
/// or the box of the only child.
pub open spec fn built(node: BVHNode, objects: Seq<Hittable>) -> bool
    decreases objects.len(),
{
    if objects.len() == 0 {
        false
    } else if objects.len() == 1 {
        &&& node.view_left() == objects[0]
        &&& node.view_right() == None::<Hittable>
        &&& node.view_bbox() == objects[0].spec_bounding_box()
    } else if objects.len() == 2 {
        &&& exists|axis: int| #[trigger] pair_for(node, objects[0], objects[1], axis)
        &&& node.boxed()
    } else {
        &&& exists|axis: int, ordered: Seq<Hittable>|
            {
                &&& #[trigger] ordered_for(ordered, objects, axis)
                &&& node.view_left() matches Hittable::Node(left)
                &&& node.view_right() matches Some(Hittable::Node(right))
                &&& built(*left, ordered.subrange(0, (objects.len() / 2) as int))
                &&& built(*right, ordered.subrange((objects.len() / 2) as int, objects.len() as int))
            }
        &&& node.boxed()
    }
}

/// Whether one of `objects` holds `sphere`.
pub open spec fn holds_sphere(objects: Seq<Hittable>, sphere: Sphere) -> bool {
    exists|i: int| 0 <= i < objects.len() && (#[trigger] objects[i]).leaves().contains(sphere)
}

impl Hittable {
    /// The number of spheres and nodes in the object.
    pub open spec fn weight(self) -> nat
        decreases self,
    {
        match self {
            Hittable::Sphere(_) => 1,
            Hittable::Node(node) => 1 + node.weight_below(),
        }
    }

    /// The number of nodes on the longest way from the object down to a
    /// sphere: none for a sphere.
    pub open spec fn depth(self) -> nat
        decreases self,
    {
        match self {
            Hittable::Sphere(_) => 0,
            Hittable::Node(node) => 1 + node.depth_below(),
        }
    }

    /// Whether the box of every sphere in the object has numbers for its
    /// ends, and every node has the box that its children give.
    pub open spec fn well_formed(self) -> bool
        decreases self,
    {
        match self {
            Hittable::Sphere(sphere) => sphere.view_bbox().spec_numbers(),
            Hittable::Node(node) => node.well_formed(),
        }
    }
}

impl BVHNode {
    /// The left child.
    pub closed spec fn view_left(self) -> Hittable {
        self.left
    }

    /// The right child, if there is one.
    pub closed spec fn view_right(self) -> Option<Hittable> {
        self.right
    }

    /// The box around the children.
    pub closed spec fn view_bbox(self) -> AABB {
        self.bbox
    }

    /// Whether the box is the union of the children's boxes, or the box of
    /// the only child.
    pub open spec fn boxed(self) -> bool {
        self.view_bbox() == (match self.view_right() {
            Some(right) => AABB::spec_from_boxes(
                self.view_left().spec_bounding_box(),
                right.spec_bounding_box(),
            ),
            None => self.view_left().spec_bounding_box(),
        })
    }

    /// Whether this node and every node below it has the box that its
    /// children give.
    pub open spec fn well_formed(self) -> bool
        decreases self,
    {
        &&& self.boxed()
        &&& self.view_left().well_formed()
        &&& match self.view_right() {
            Some(right) => right.well_formed(),
            None => true,
        }
    }

    /// The number of spheres and nodes below the node.
    pub open spec fn weight_below(self) -> nat
        decreases self,
    {
        self.view_left().weight() + match self.view_right() {
            Some(right) => right.weight(),
            None => 0,
        }
    }

    /// The number of nodes on the longest way from below the node down to a
    /// sphere.
    pub open spec fn depth_below(self) -> nat
        decreases self,
    {
        let left = self.view_left().depth();
        match self.view_right() {
            Some(right) => if left >= right.depth() {
                left
            } else {
                right.depth()
            },
            None => left,
        }
    }

    /// The children, left to right.
    pub open spec fn children(self) -> Seq<Hittable> {
        match self.view_right() {
            Some(right) => seq![self.view_left(), right],
            None => seq![self.view_left()],
        }
    }

    /// The spheres under the node, left to right.
    pub open spec fn leaves(self) -> Seq<Sphere>
        decreases self,
    {
        match self.view_right() {
            Some(right) => self.view_left().leaves() + right.leaves(),
            None => self.view_left().leaves(),
        }
    }

    /// The box around the children.
    pub fn bounding_box(&self) -> (b: &AABB)
        ensures
            *b == self.view_bbox(),
    {
        &self.bbox
    }

    /// The left child.
    pub fn left(&self) -> (l: &Hittable)
        ensures
            *l == self.view_left(),
    {
        &self.left
    }

    /// The right child, if there is one.
    pub fn right(&self) -> (r: Option<&Hittable>)
        ensures
            r.is_some() == self.view_right().is_some(),
            r matches Some(right) ==> *right == self.view_right()->0,
    {
        match &self.right {
            Some(right) => Some(right),
            None => None,
        }
    }

    /// Builds the hierarchy over `objects`, splitting along an axis drawn at
    /// random at each node.
    pub fn new(objects: Vec<Hittable>) -> (node: Self)
        requires
            objects@.len() > 0,
            all_comparable(objects@),
        ensures
            built(node, objects@),
        decreases objects@.len(), 1nat,
    {
        let axis = random_below(3);
        Self::with_axis(objects, axis)
    }

    /// Builds the hierarchy over `objects`, splitting along `axis` at this
    /// node and along an axis drawn at random at each node below it.
    pub fn with_axis(objects: Vec<Hittable>, axis: usize) -> (node: Self)
        requires
            objects@.len() > 0,
            all_comparable(objects@),
            axis < 3,
        ensures
            built(node, objects@),
            objects@.len() == 2 ==> pair_for(node, objects@[0], objects@[1], axis as int),
            objects@.len() > 2 ==> exists|ordered: Seq<Hittable>|
                {
                    &&& #[trigger] ordered_for(ordered, objects@, axis as int)
                    &&& node.view_left() matches Hittable::Node(left)
                    &&& node.view_right() matches Some(Hittable::Node(right))
                    &&& built(*left, ordered.subrange(0, (objects@.len() / 2) as int))
                    &&& built(*right, ordered.subrange(
                        (objects@.len() / 2) as int,
                        objects@.len() as int,
                    ))
                },
        decreases objects@.len(), 0nat,
    {
        let ghost given = objects@;
        let mut objects = objects;
        let object_span = objects.len();
        if object_span == 1 {
            let only = objects.pop().unwrap();
            let bbox = *only.bounding_box();
            BVHNode { left: only, right: None, bbox }
        } else if object_span == 2 {
            let second = objects.pop().unwrap();
            let first = objects.pop().unwrap();
            let bbox;
            let left;
            let right;
            if sort_key(&first, axis) <= sort_key(&second, axis) {
                bbox = AABB::from_boxes(first.bounding_box(), second.bounding_box());
                left = first;
                right = second;
            } else {
                bbox = AABB::from_boxes(second.bounding_box(), first.bounding_box());
                left = second;
                right = first;
            }
            let node = BVHNode { left, right: Some(right), bbox };
            assert(pair_for(node, given[0], given[1], axis as int));
            node
        } else {
            let mut ordered = sort_along(objects, axis);
            let ghost whole = ordered@;
            let mid = object_span / 2;
            let upper = ordered.split_off(mid);
            proof {
                assert forall|i: int| 0 <= i < whole.len() implies comparable(
                    #[trigger] whole[i],
                ) by {
                    assert(whole.contains(whole[i]));
                    lemma_same_objects(whole, given, whole[i]);
                    let k = choose|k: int| 0 <= k < given.len() && given[k] == whole[i];
                }
                assert forall|i: int| 0 <= i < ordered@.len() implies comparable(
                    #[trigger] ordered@[i],
                ) by {
                    assert(ordered@[i] == whole[i]);
                }
                assert forall|i: int| 0 <= i < upper@.len() implies comparable(
                    #[trigger] upper@[i],
                ) by {
                    assert(upper@[i] == whole[i + mid]);
                }
            }
            let left = BVHNode::new(ordered);
            let right = BVHNode::new(upper);
            let bbox = AABB::from_boxes(left.bounding_box(), right.bounding_box());
            let node = BVHNode {
                left: Hittable::Node(Box::new(left)),
                right: Some(Hittable::Node(Box::new(right))),
                bbox,
            };
            assert(ordered_for(whole, given, axis as int));
            node
        }
    }
}

/// The empty list holds nothing.
proof fn lemma_nothing_in_empty(s: Seq<Hittable>)
    requires
        s.len() == 0,
    ensures
        s.to_multiset() =~= Multiset::<Hittable>::empty(),
{
    vstd::seq_lib::to_multiset_len(s);
    vstd::multiset::lemma_multiset_empty_len(s.to_multiset());
}

/// Merges two lists, each in ascending order along `axis`, into one.
fn merge(left: Vec<Hittable>, right: Vec<Hittable>, axis: usize) -> (out: Vec<Hittable>)
    requires
        axis < 3,
        sorted_by(left@, axis as int),
        sorted_by(right@, axis as int),
    ensures
        sorted_by(out@, axis as int),
        out@.to_multiset() == left@.to_multiset().add(right@.to_multiset()),
        out@.len() == left@.len() + right@.len(),
{
    let ghost all = left@.to_multiset().add(right@.to_multiset());
    let ghost total = left@.len() + right@.len();
    let mut left = left;
    let mut right = right;
    let mut down: Vec<Hittable> = Vec::new();
    proof {
        lemma_nothing_in_empty(down@);
        assert(down@.to_multiset().add(left@.to_multiset()).add(right@.to_multiset()) =~= all);
    }
    // The largest object left comes off the back of one list and goes onto the
    // back of `down`, which therefore runs downward.
    while left.len() > 0 || right.len() > 0
        invariant
            axis < 3,
            sorted_by(left@, axis as int),
            sorted_by(right@, axis as int),
            sorted_down_by(down@, axis as int),
            forall|i: int, j: int|
                0 <= i < left@.len() && 0 <= j < down@.len() ==> spec_sort_key(
                    #[trigger] left@[i],
                    axis as int,
                ) <= spec_sort_key(#[trigger] down@[j], axis as int),
            forall|i: int, j: int|
                0 <= i < right@.len() && 0 <= j < down@.len() ==> spec_sort_key(
                    #[trigger] right@[i],
                    axis as int,
                ) <= spec_sort_key(#[trigger] down@[j], axis as int),
            down@.to_multiset().add(left@.to_multiset()).add(right@.to_multiset()) == all,
            down@.len() + left@.len() + right@.len() == total,
        decreases left@.len() + right@.len(),
    {
        let ghost before_left = left@;
        let ghost before_right = right@;
        let ghost before_down = down@;
        let from_left = if right.len() == 0 {
            true
        } else if left.len() == 0 {
            false
        } else {
            sort_key(&left[left.len() - 1], axis) > sort_key(&right[right.len() - 1], axis)
        };
        let largest = if from_left {
            let taken = left.pop().unwrap();
            assert(before_left =~= left@.push(taken));
            taken
        } else {
            let taken = right.pop().unwrap();
            assert(before_right =~= right@.push(taken));
            taken
        };
        down.push(largest);
        proof {
            to_multiset_build(before_down, largest);
            if from_left {
                to_multiset_build(left@, largest);
            } else {
                to_multiset_build(right@, largest);
            }
            assert(down@.to_multiset().add(left@.to_multiset()).add(right@.to_multiset())
                =~= before_down.to_multiset().add(before_left.to_multiset()).add(
                before_right.to_multiset(),
            ));
            assert forall|i: int, j: int| 0 <= i <= j < down@.len() implies spec_sort_key(
                #[trigger] down@[i],
                axis as int,
            ) >= spec_sort_key(#[trigger] down@[j], axis as int) by {
                if j == before_down.len() && i < j {
                    assert(down@[i] == before_down[i]);
                    if from_left {
                        assert(before_left[before_left.len() - 1] == largest);
                    } else {
                        assert(before_right[before_right.len() - 1] == largest);
                    }
                } else if j < before_down.len() {
                    assert(down@[i] == before_down[i] && down@[j] == before_down[j]);
                }
            }
            assert forall|i: int, j: int|
                0 <= i < left@.len() && 0 <= j < down@.len() implies spec_sort_key(
                #[trigger] left@[i],
                axis as int,
            ) <= spec_sort_key(#[trigger] down@[j], axis as int) by {
                assert(left@[i] == before_left[i]);
                if j < before_down.len() {
                    assert(down@[j] == before_down[j]);
                } else if from_left {
                    assert(before_left[before_left.len() - 1] == largest);
                } else if before_left.len() > 0 {
                    assert(before_right[before_right.len() - 1] == largest);
                    assert(spec_sort_key(before_left[before_left.len() - 1], axis as int)
                        <= spec_sort_key(largest, axis as int));
                }
            }
            assert forall|i: int, j: int|
                0 <= i < right@.len() && 0 <= j < down@.len() implies spec_sort_key(
                #[trigger] right@[i],
                axis as int,
            ) <= spec_sort_key(#[trigger] down@[j], axis as int) by {
                assert(right@[i] == before_right[i]);
                if j < before_down.len() {
                    assert(down@[j] == before_down[j]);
                } else if !from_left {
                    assert(before_right[before_right.len() - 1] == largest);
                } else if before_right.len() > 0 {
                    assert(before_left[before_left.len() - 1] == largest);
                    assert(spec_sort_key(before_right[before_right.len() - 1], axis as int)
                        <= spec_sort_key(largest, axis as int));
                }
            }
        }
    }
    proof {
        lemma_nothing_in_empty(left@);
        lemma_nothing_in_empty(right@);
        assert(down@.to_multiset() =~= all);
    }
    let mut out: Vec<Hittable> = Vec::new();
    proof {
        lemma_nothing_in_empty(out@);
        assert(out@.to_multiset().add(down@.to_multiset()) =~= all);
    }
    while down.len() > 0
        invariant
            axis < 3,
            sorted_down_by(down@, axis as int),
            sorted_by(out@, axis as int),
            forall|i: int, j: int|
                0 <= i < out@.len() && 0 <= j < down@.len() ==> spec_sort_key(
                    #[trigger] out@[i],
                    axis as int,
                ) <= spec_sort_key(#[trigger] down@[j], axis as int),
            out@.to_multiset().add(down@.to_multiset()) == all,
            out@.len() + down@.len() == total,
        decreases down@.len(),
    {
        let ghost before_down = down@;
        let ghost before_out = out@;
        let smallest = down.pop().unwrap();
        out.push(smallest);
        proof {
            assert(before_down =~= down@.push(smallest));
            to_multiset_build(down@, smallest);
            to_multiset_build(before_out, smallest);
            assert(out@.to_multiset().add(down@.to_multiset()) =~= before_out.to_multiset().add(
                before_down.to_multiset(),
            ));
            assert(before_down[before_down.len() - 1] == smallest);
            assert forall|i: int, j: int| 0 <= i <= j < out@.len() implies spec_sort_key(
                #[trigger] out@[i],
                axis as int,
            ) <= spec_sort_key(#[trigger] out@[j], axis as int) by {
                if j < before_out.len() {
                    assert(out@[i] == before_out[i] && out@[j] == before_out[j]);
                } else if i < j {
                    assert(out@[i] == before_out[i]);
                }
            }
            assert forall|i: int, j: int|
                0 <= i < out@.len() && 0 <= j < down@.len() implies spec_sort_key(
                #[trigger] out@[i],
                axis as int,
            ) <= spec_sort_key(#[trigger] down@[j], axis as int) by {
                assert(down@[j] == before_down[j]);
                if i < before_out.len() {
                    assert(out@[i] == before_out[i]);
                }
            }
        }
    }
    proof {
        lemma_nothing_in_empty(down@);
        assert(out@.to_multiset() =~= all);
    }
    out
}

/// Puts `objects` in ascending order of where their boxes start along `axis`.
pub fn sort_along(objects: Vec<Hittable>, axis: usize) -> (ordered: Vec<Hittable>)
    requires
        axis < 3,
        all_comparable(objects@),
    ensures
        ordered_for(ordered@, objects@, axis as int),
    decreases objects@.len(),
{
    let ghost given = objects@;
    let mut objects = objects;
    let n = objects.len();
    if n <= 1 {
        return objects;
    }
    let upper = objects.split_off(n / 2);
    proof {
        assert(given =~= objects@ + upper@);
        lemma_multiset_commutative(objects@, upper@);
        assert forall|i: int| 0 <= i < objects@.len() implies comparable(
            #[trigger] objects@[i],
        ) by {
            assert(objects@[i] == given[i]);
        }
        assert forall|i: int| 0 <= i < upper@.len() implies comparable(#[trigger] upper@[i]) by {
            assert(upper@[i] == given[i + n / 2]);
        }
    }
    let lower_ordered = sort_along(objects, axis);
    let upper_ordered = sort_along(upper, axis);
    merge(lower_ordered, upper_ordered, axis)
}

/// The children of a node are smaller than the node: a proof may go from a
/// node down to them.
pub proof fn lemma_children_below(node: Box<BVHNode>)
    ensures
        decreases_to!(Hittable::Node(node) => node.view_left()),
        node.view_right().is_some() ==> decreases_to!(Hittable::Node(node) => node.view_right().unwrap()),
{
    let object = Hittable::Node(node);
    assert(decreases_to!(object => object->Node_0));
    assert(decreases_to!(object->Node_0 => object->Node_0.left));
    assert(decreases_to!(object->Node_0 => object->Node_0.right));
    if node.right.is_some() {
        assert(decreases_to!(object->Node_0.right => object->Node_0.right->0));
    }
}

/// The box of a well-formed object encloses the box of every sphere in it.
pub proof fn lemma_box_encloses_leaves(object: Hittable, sphere: Sphere)
    requires
        object.well_formed(),
        object.leaves().contains(sphere),
    ensures
        object.spec_bounding_box().encloses(sphere.view_bbox()),
        object.spec_bounding_box().spec_numbers(),
        sphere.view_bbox().spec_numbers(),
    decreases object,
{
    match object {
        Hittable::Sphere(only) => {
            assert(object.leaves()[0] == only);
        },
        Hittable::Node(node) => {
            let left = node.view_left();
            match node.view_right() {
                Some(right) => {
                    let i = choose|i: int|
                        0 <= i < node.leaves().len() && node.leaves()[i] == sphere;
                    if i < left.leaves().len() {
                        assert(left.leaves()[i] == sphere);
                        lemma_box_encloses_leaves(left, sphere);
                    } else {
                        assert(right.leaves()[i - left.leaves().len()] == sphere);
                        lemma_box_encloses_leaves(right, sphere);
                    }
                },
                None => {
                    lemma_box_encloses_leaves(left, sphere);
                },
            }
        },
    }
}

/// A hierarchy built over well-formed objects is well formed.
pub proof fn lemma_built_well_formed(node: BVHNode, objects: Seq<Hittable>)
    requires
        built(node, objects),
        forall|i: int| 0 <= i < objects.len() ==> (#[trigger] objects[i]).well_formed(),
    ensures
        node.well_formed(),
    decreases objects.len(),
{
    if objects.len() == 1 {
    } else if objects.len() == 2 {
        let axis = choose|axis: int| #[trigger] pair_for(node, objects[0], objects[1], axis);
    } else {
        let (axis, ordered) = choose|axis: int, ordered: Seq<Hittable>|
            {
                &&& #[trigger] ordered_for(ordered, objects, axis)
                &&& node.view_left() matches Hittable::Node(left)
                &&& node.view_right() matches Some(Hittable::Node(right))
                &&& built(*left, ordered.subrange(0, (objects.len() / 2) as int))
                &&& built(
                    *right,
                    ordered.subrange((objects.len() / 2) as int, objects.len() as int),
                )
            };
        let mid = (objects.len() / 2) as int;
        assert forall|i: int| 0 <= i < ordered.len() implies (#[trigger] ordered[i]).well_formed() by {
            lemma_same_objects(ordered, objects, ordered[i]);
        }
        let lower = ordered.subrange(0, mid);
        let upper = ordered.subrange(mid, objects.len() as int);
        assert forall|i: int| 0 <= i < lower.len() implies (#[trigger] lower[i]).well_formed() by {
            assert(lower[i] == ordered[i]);
        }
        assert forall|i: int| 0 <= i < upper.len() implies (#[trigger] upper[i]).well_formed() by {
            assert(upper[i] == ordered[i + mid]);
        }
        match (node.view_left(), node.view_right()) {
            (Hittable::Node(left), Some(Hittable::Node(right))) => {
                lemma_built_well_formed(*left, lower);
                lemma_built_well_formed(*right, upper);
            },
            _ => {},
        }
    }
}

/// A hierarchy built over spheres is balanced: over at most `2^(levels + 1)`
/// spheres, no way from below the root down to a sphere passes more than
/// `levels` nodes.
pub proof fn lemma_built_depth(node: BVHNode, objects: Seq<Hittable>, levels: nat)
    requires
        built(node, objects),
        forall|i: int| 0 <= i < objects.len() ==> (#[trigger] objects[i]) is Sphere,
        objects.len() <= pow2(levels + 1),
    ensures
        node.depth_below() <= levels,
    decreases objects.len(), 0nat,
{
    if objects.len() == 1 {
    } else if objects.len() == 2 {
        let axis = choose|axis: int| #[trigger] pair_for(node, objects[0], objects[1], axis);
    } else {
        let (axis, ordered) = choose|axis: int, ordered: Seq<Hittable>|
            {
                &&& #[trigger] ordered_for(ordered, objects, axis)
                &&& node.view_left() matches Hittable::Node(left)
                &&& node.view_right() matches Some(Hittable::Node(right))
                &&& built(*left, ordered.subrange(0, (objects.len() / 2) as int))
                &&& built(
                    *right,
                    ordered.subrange((objects.len() / 2) as int, objects.len() as int),
                )
            };
        let mid = (objects.len() / 2) as int;
        lemma2_to64();
        assert(levels >= 1);
        lemma_pow2_unfold(levels + 1);
        let below = (levels - 1) as nat;
        assert forall|i: int| 0 <= i < ordered.len() implies (#[trigger] ordered[i]) is Sphere by {
            assert(ordered.contains(ordered[i]));
            lemma_same_objects(ordered, objects, ordered[i]);
            let k = choose|k: int| 0 <= k < objects.len() && objects[k] == ordered[i];
        }
        let lower = ordered.subrange(0, mid);
        let upper = ordered.subrange(mid, objects.len() as int);
        assert forall|i: int| 0 <= i < lower.len() implies (#[trigger] lower[i]) is Sphere by {
            assert(lower[i] == ordered[i]);
        }
        assert forall|i: int| 0 <= i < upper.len() implies (#[trigger] upper[i]) is Sphere by {
            assert(upper[i] == ordered[i + mid]);
        }
        match (node.view_left(), node.view_right()) {
            (Hittable::Node(left), Some(Hittable::Node(right))) => {
                lemma_halves_depth(*left, lower, levels);
                lemma_halves_depth(*right, upper, levels);
            },
            _ => {},
        }
    }
}

/// A node built over at most `2^levels` spheres, with `levels` at least one,
/// has fewer than `levels` nodes on any way from below it down to a sphere.
proof fn lemma_halves_depth(node: BVHNode, objects: Seq<Hittable>, levels: nat)
    requires
        built(node, objects),
        forall|i: int| 0 <= i < objects.len() ==> (#[trigger] objects[i]) is Sphere,
        objects.len() <= pow2(levels),
        levels >= 1,
    ensures
        node.depth_below() + 1 <= levels,
    decreases objects.len(), 1nat,
{
    if objects.len() == 1 {
    } else if objects.len() == 2 {
        let axis = choose|axis: int| #[trigger] pair_for(node, objects[0], objects[1], axis);
    } else {
        lemma2_to64();
        assert(levels >= 2);
        lemma_built_depth(node, objects, (levels - 1) as nat);
    }
}

/// Two lists that hold the same objects as often hold the same objects.
pub proof fn lemma_same_objects(a: Seq<Hittable>, b: Seq<Hittable>, object: Hittable)
    requires
        a.to_multiset() == b.to_multiset(),
    ensures
        a.contains(object) == b.contains(object),
{
    vstd::seq_lib::to_multiset_contains(a, object);
    vstd::seq_lib::to_multiset_contains(b, object);
}

/// A hierarchy holds exactly the spheres of the objects that it was built
/// over.
pub proof fn lemma_built_leaves(node: BVHNode, objects: Seq<Hittable>, sphere: Sphere)
    requires
        built(node, objects),
    ensures
        node.leaves().contains(sphere) == holds_sphere(objects, sphere),
    decreases objects.len(),
{
    if objects.len() == 1 {
        if holds_sphere(objects, sphere) {
            let i = choose|i: int|
                0 <= i < objects.len() && (#[trigger] objects[i]).leaves().contains(sphere);
            assert(i == 0);
        }
        if node.leaves().contains(sphere) {
            assert(objects[0].leaves().contains(sphere));
        }
    } else if objects.len() == 2 {
        let axis = choose|axis: int| #[trigger] pair_for(node, objects[0], objects[1], axis);
        let left = node.view_left();
        let right = node.view_right()->0;
        lemma_concat_contains(left.leaves(), right.leaves(), sphere);
        if holds_sphere(objects, sphere) {
            let i = choose|i: int|
                0 <= i < objects.len() && (#[trigger] objects[i]).leaves().contains(sphere);
            assert(i == 0 || i == 1);
        }
        if node.leaves().contains(sphere) {
            assert(objects[0].leaves().contains(sphere) || objects[1].leaves().contains(sphere));
        }
    } else {
        let (axis, ordered) = choose|axis: int, ordered: Seq<Hittable>|
            {
                &&& #[trigger] ordered_for(ordered, objects, axis)
                &&& node.view_left() matches Hittable::Node(left)
                &&& node.view_right() matches Some(Hittable::Node(right))
                &&& built(*left, ordered.subrange(0, (objects.len() / 2) as int))
                &&& built(
                    *right,
                    ordered.subrange((objects.len() / 2) as int, objects.len() as int),
                )
            };
        let mid = (objects.len() / 2) as int;
        let lower = ordered.subrange(0, mid);
        let upper = ordered.subrange(mid, objects.len() as int);
        match (node.view_left(), node.view_right()) {
            (Hittable::Node(left), Some(Hittable::Node(right))) => {
                lemma_built_leaves(*left, lower, sphere);
                lemma_built_leaves(*right, upper, sphere);
                lemma_concat_contains(left.leaves(), right.leaves(), sphere);
                assert(node.view_left().leaves() == left.leaves());
                assert(node.view_right()->0.leaves() == right.leaves());
                if holds_sphere(lower, sphere) {
                    let i = choose|i: int|
                        0 <= i < lower.len() && (#[trigger] lower[i]).leaves().contains(sphere);
                    assert(lower[i] == ordered[i]);
                    assert(ordered.contains(ordered[i]));
                    lemma_same_objects(ordered, objects, ordered[i]);
                    let k = choose|k: int| 0 <= k < objects.len() && objects[k] == ordered[i];
                    assert(objects[k].leaves().contains(sphere));
                }
                if holds_sphere(upper, sphere) {
                    let i = choose|i: int|
                        0 <= i < upper.len() && (#[trigger] upper[i]).leaves().contains(sphere);
                    assert(upper[i] == ordered[i + mid]);
                    assert(ordered.contains(ordered[i + mid]));
                    lemma_same_objects(ordered, objects, ordered[i + mid]);
                    let k = choose|k: int|
                        0 <= k < objects.len() && objects[k] == ordered[i + mid];
                    assert(objects[k].leaves().contains(sphere));
                }
                if holds_sphere(objects, sphere) {
                    let k = choose|k: int|
                        0 <= k < objects.len() && (#[trigger] objects[k]).leaves().contains(sphere);
                    assert(objects.contains(objects[k]));
                    lemma_same_objects(ordered, objects, objects[k]);
                    let i = choose|i: int| 0 <= i < ordered.len() && ordered[i] == objects[k];
                    if i < mid {
                        assert(lower[i] == ordered[i]);
                        assert(holds_sphere(lower, sphere));
                    } else {
                        assert(upper[i - mid] == ordered[i]);
                        assert(holds_sphere(upper, sphere));
                    }
                }
            },
            _ => {},
        }
    }
}

/// A sphere is in the concatenation of two lists where it is in one of them.
pub proof fn lemma_concat_contains(a: Seq<Sphere>, b: Seq<Sphere>, sphere: Sphere)
    ensures
        (a + b).contains(sphere) == (a.contains(sphere) || b.contains(sphere)),
{
    if a.contains(sphere) {
        let i = choose|i: int| 0 <= i < a.len() && a[i] == sphere;
        assert((a + b)[i] == sphere);
    }
    if b.contains(sphere) {
        let i = choose|i: int| 0 <= i < b.len() && b[i] == sphere;
        assert((a + b)[i + a.len()] == sphere);
    }
    if (a + b).contains(sphere) {
        let i = choose|i: int| 0 <= i < (a + b).len() && (a + b)[i] == sphere;
        if i < a.len() {
            assert(a[i] == sphere);
        } else {
            assert(b[i - a.len()] == sphere);
        }
    }
}

/// The number of steps that searching `objects` takes at most: one for each
/// sphere and one for each node.
pub open spec fn work(objects: Seq<Hittable>) -> nat
    decreases objects.len(),
{
    if objects.len() == 0 {
        0
    } else {
        objects[0].weight() + work(objects.drop_first())
    }
}

/// Searching the children of a node and then `rest` takes one step less than
/// searching the node and then `rest`.
pub proof fn lemma_work_of_children(node: BVHNode, rest: Seq<Hittable>)
    ensures
        work(node.children() + rest) + 1 == work(seq![Hittable::Node(Box::new(node))] + rest),
        work(seq![Hittable::Node(Box::new(node))] + rest) == 1 + node.weight_below() + work(rest),
{
    let root = Hittable::Node(Box::new(node));
    let before = seq![root] + rest;
    assert(before[0] == root);
    assert(before.drop_first() =~= rest);
    let after = node.children() + rest;
    assert(after[0] == node.view_left());
    match node.view_right() {
        Some(right) => {
            let tail = after.drop_first();
            assert(tail[0] == right);
            assert(tail.drop_first() =~= rest);
            assert(work(tail) == right.weight() + work(rest));
        },
        None => {
            assert(after.drop_first() =~= rest);
        },
    }
}

/// The end of the interval still searched: the parameter of the nearest
/// hit found so far, or the end of the whole interval.
pub open spec fn closest(found: Option<(Sphere, i64)>, t_interval: Interval) -> i64 {
    match found {
        Some((_, t)) => t,
        None => t_interval.max,
    }
}

/// The interval still searched.
pub open spec fn window(found: Option<(Sphere, i64)>, t_interval: Interval) -> Interval {
    Interval { min: t_interval.min, max: closest(found, t_interval) }
}

/// The nearest hit known after searching `object`, where `found` was known
/// before. `roots` and `slabs` say what arithmetic on the ray gives for each
/// sphere and for each box. A node whose box the ray misses within the
/// interval still searched is passed over; otherwise its left child is
/// searched, and then its right child, within what the left child has left.
pub open spec fn visit(
    object: Hittable,
    roots: spec_fn(Sphere) -> Roots,
    slabs: spec_fn(AABB) -> [Slab; 3],
    t_interval: Interval,
    found: Option<(Sphere, i64)>,
) -> Option<(Sphere, i64)>
    decreases object,
{
    match object {
        Hittable::Sphere(sphere) => match Sphere::spec_hit(
            roots(sphere),
            window(found, t_interval),
        ) {
            Some(t) => Some((sphere, t)),
            None => found,
        },
        Hittable::Node(node) => if AABB::spec_hit(
            slabs(node.view_bbox()),
            window(found, t_interval),
        ) {
            let after_left = visit(node.view_left(), roots, slabs, t_interval, found);
            match node.view_right() {
                Some(right) => visit(right, roots, slabs, t_interval, after_left),
                None => after_left,
            }
        } else {
            found
        },
    }
}

/// The nearest hit known after searching `objects` one after the other.
pub open spec fn visit_all(
    objects: Seq<Hittable>,
    roots: spec_fn(Sphere) -> Roots,
    slabs: spec_fn(AABB) -> [Slab; 3],
    t_interval: Interval,
    found: Option<(Sphere, i64)>,
) -> Option<(Sphere, i64)>
    decreases objects.len(),
{
    if objects.len() == 0 {
        found
    } else {
        visit_all(
            objects.drop_first(),
            roots,
            slabs,
            t_interval,
            visit(objects[0], roots, slabs, t_interval, found),
        )
    }
}

/// Searching a node that the ray's box test lets through is searching its
/// children in turn.
pub proof fn lemma_visit_node(
    node: BVHNode,
    rest: Seq<Hittable>,
    roots: spec_fn(Sphere) -> Roots,
    slabs: spec_fn(AABB) -> [Slab; 3],
    t_interval: Interval,
    found: Option<(Sphere, i64)>,
)
    requires
        AABB::spec_hit(slabs(node.view_bbox()), window(found, t_interval)),
    ensures
        visit_all(node.children() + rest, roots, slabs, t_interval, found) == visit_all(
            rest,
            roots,
            slabs,
            t_interval,
            visit(Hittable::Node(Box::new(node)), roots, slabs, t_interval, found),
        ),
{
    let all = node.children() + rest;
    let after_left = visit(node.view_left(), roots, slabs, t_interval, found);
    assert(all[0] == node.view_left());
    assert(visit_all(all, roots, slabs, t_interval, found) == visit_all(
        all.drop_first(),
        roots,
        slabs,
        t_interval,
        after_left,
    ));
    match node.view_right() {
        Some(right) => {
            let tail = all.drop_first();
            assert(tail[0] == right);
            assert(tail.drop_first() =~= rest);
            assert(visit_all(tail, roots, slabs, t_interval, after_left) == visit_all(
                tail.drop_first(),
                roots,
                slabs,
                t_interval,
                visit(right, roots, slabs, t_interval, after_left),
            ));
        },
        None => {
            assert(all.drop_first() =~= rest);
        },
    }
}

} // verus!
