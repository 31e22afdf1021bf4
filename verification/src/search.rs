//! The search for the nearest hit of one ray, step by step.
//!
//! The search decides which object to test next and what a test result
//! means; the caller does the arithmetic in between. At each step `probe`
//! names a sphere, whose quadratic the caller solves, or a box, whose slabs
//! the caller computes, and `step` takes the answer.

use vstd::prelude::*;
use crate::aabb::{Interval, Slab, AABB};
use crate::bvh::{
    built, closest, holds_sphere, lemma_box_encloses_leaves, lemma_built_leaves,
    lemma_built_well_formed, lemma_children_below, lemma_concat_contains, lemma_visit_node,
    lemma_work_of_children, visit, visit_all, window, work,
    BVHNode,
};
use crate::geometry::{lemma_hit_narrows, Hittable, Roots, Sphere};
use crate::scalar::is_number;
use crate::world::World;

verus! {

/// What the search needs next.
#[derive(Clone, Copy)]
pub enum Probe<'a> {
    /// The roots of the ray's quadratic for this sphere.
    Roots(&'a Sphere),
    /// The ray's crossings of the three slabs of this box.
    Slabs(&'a AABB),
    /// Nothing: the search is over.
    Done,
}

/// What the caller computed for a probe.
#[derive(Clone, Copy, Debug)]
pub enum Answer {
    Roots(Roots),
    Slabs([Slab; 3]),
}

/// A search under way: the objects still to test, the interval of ray
/// parameters in which a hit counts, and the nearest hit found so far.
pub struct Search<'a> {
    pending: Vec<&'a Hittable>,
    t_interval: Interval,
    found: Option<(Sphere, i64)>,
}

/// The objects still to test and the nearest hit, after `answer` was given
/// for the first of `remaining`: a sphere is hit where the roots give a
/// parameter inside the interval still searched, and is then the nearest; a
/// node is replaced by its children where the slabs let the ray through its
/// box within that interval, and dropped otherwise. An answer of the wrong
/// kind changes nothing.
pub open spec fn spec_step(
    remaining: Seq<Hittable>,
    t_interval: Interval,
    found: Option<(Sphere, i64)>,
    answer: Answer,
) -> (Seq<Hittable>, Option<(Sphere, i64)>) {
    if remaining.len() == 0 {
        (remaining, found)
    } else {
        match (remaining[0], answer) {
            (Hittable::Sphere(sphere), Answer::Roots(roots)) => (
                remaining.drop_first(),
                match Sphere::spec_hit(roots, window(found, t_interval)) {
                    Some(t) => Some((sphere, t)),
                    None => found,
                },
            ),
            (Hittable::Node(node), Answer::Slabs(slabs)) => (
                if AABB::spec_hit(slabs, window(found, t_interval)) {
                    node.children() + remaining.drop_first()
                } else {
                    remaining.drop_first()
                },
                found,
            ),
            _ => (remaining, found),
        }
    }
}

impl<'a> Search<'a> {
    /// The objects still to test, the next one first.
    pub closed spec fn remaining(self) -> Seq<Hittable> {
        Seq::new(self.pending@.len(), |i: int| *self.pending@[self.pending@.len() - 1 - i])
    }

    /// The interval in which a hit counts.
    pub closed spec fn view_interval(self) -> Interval {
        self.t_interval
    }

    /// The nearest hit found so far: the sphere and the ray parameter.
    pub closed spec fn view_found(self) -> Option<(Sphere, i64)> {
        self.found
    }

    /// Whether `answer` is of the kind that the next object needs.
    pub open spec fn expects(self, answer: Answer) -> bool {
        &&& self.remaining().len() > 0
        &&& self.remaining()[0] is Sphere <==> answer is Roots
    }

    /// The hit that the search ends with, where `roots` and `slabs` are what
    /// the caller's arithmetic gives.
    pub open spec fn outcome(
        self,
        roots: spec_fn(Sphere) -> Roots,
        slabs: spec_fn(AABB) -> [Slab; 3],
    ) -> Option<(Sphere, i64)> {
        visit_all(self.remaining(), roots, slabs, self.view_interval(), self.view_found())
    }

    /// A search of `objects` from the first to the last, with nothing found
    /// yet.
    fn begin(objects: &'a Vec<Hittable>, t_interval: Interval) -> (search: Self)
        ensures
            search.remaining() == objects@,
            search.view_interval() == t_interval,
            search.view_found() == None::<(Sphere, i64)>,
    {
        let mut pending: Vec<&'a Hittable> = Vec::new();
        let mut i: usize = objects.len();
        while i > 0
            invariant
                i <= objects@.len(),
                pending@.len() == objects@.len() - i,
                forall|k: int|
                    0 <= k < pending@.len() ==> *#[trigger] pending@[k] == objects@[objects@.len()
                        - 1 - k],
            decreases i,
        {
            i -= 1;
            pending.push(&objects[i]);
        }
        let search = Search { pending, t_interval, found: None };
        assert(search.remaining() =~= objects@);
        search
    }

    /// The interval that is still searched: from the start of the whole
    /// interval to the nearest hit found so far.
    pub fn interval(&self) -> (w: Interval)
        ensures
            w == window(self.view_found(), self.view_interval()),
    {
        match self.found {
            Some((_, t)) => Interval { min: self.t_interval.min, max: t },
            None => self.t_interval,
        }
    }

    /// What the search needs next: the roots for the next object if that is
    /// a sphere, the slabs of its box if it is a node, nothing if no object
    /// is left.
    pub fn probe(&self) -> (p: Probe<'a>)
        ensures
            self.remaining().len() == 0 <==> p is Done,
            p matches Probe::Roots(sphere) ==> self.remaining()[0] == Hittable::Sphere(*sphere),
            p matches Probe::Slabs(bbox) ==> self.remaining()[0] is Node
                && self.remaining()[0].spec_bounding_box() == *bbox,
    {
        let n = self.pending.len();
        if n == 0 {
            return Probe::Done;
        }
        let next: &'a Hittable = self.pending[n - 1];
        assert(self.remaining()[0] == *next);
        match next {
            Hittable::Sphere(sphere) => Probe::Roots(sphere),
            Hittable::Node(node) => Probe::Slabs(node.bounding_box()),
        }
    }

    /// Takes the answer to the last probe and moves on to the next object.
    pub fn step(&mut self, answer: &Answer)
        requires
            old(self).expects(*answer),
        ensures
            final(self).view_interval() == old(self).view_interval(),
            (final(self).remaining(), final(self).view_found()) == spec_step(
                old(self).remaining(),
                old(self).view_interval(),
                old(self).view_found(),
                *answer,
            ),
            work(final(self).remaining()) < work(old(self).remaining()),
    {
        let ghost before = self.remaining();
        let within = self.interval();
        let next: &'a Hittable = self.pending.pop().unwrap();
        assert(before[0] == *next);
        assert(self.remaining() =~= before.drop_first());
        proof {
            if before[0] is Node {
                let node = before[0]->Node_0;
                assert(before =~= seq![Hittable::Node(node)] + before.drop_first());
                lemma_work_of_children(*node, before.drop_first());
            }
        }
        match (next, answer) {
            (Hittable::Sphere(sphere), Answer::Roots(roots)) => {
                if let Some(t) = Sphere::hit(roots, within) {
                    self.found = Some((*sphere, t));
                }
                assert(self.remaining() =~= before.drop_first());
            },
            (Hittable::Node(node), Answer::Slabs(slabs)) => {
                if AABB::hit(slabs, within) {
                    match node.right() {
                        Some(right) => {
                            self.pending.push(right);
                        },
                        None => {},
                    }
                    self.pending.push(node.left());
                    assert(self.remaining() =~= node.children() + before.drop_first());
                }
            },
            _ => {
                assert(false);
            },
        }
    }

    /// The nearest hit found so far; once `probe` says `Done`, the nearest
    /// hit of all.
    pub fn nearest(&self) -> (found: Option<(Sphere, i64)>)
        ensures
            found == self.view_found(),
    {
        self.found
    }
}

impl World {
    /// Starts the search for the nearest hit of a ray among the objects of
    /// the world, in the order in which they were added, within `t_interval`.
    pub fn hit(&self, t_interval: Interval) -> (search: Search<'_>)
        ensures
            search.remaining() == self@,
            search.view_interval() == t_interval,
            search.view_found() == None::<(Sphere, i64)>,
    {
        Search::begin(self.objects(), t_interval)
    }
}

/// The answer that `roots` and `slabs` give for an object.
pub open spec fn answer_for(
    object: Hittable,
    roots: spec_fn(Sphere) -> Roots,
    slabs: spec_fn(AABB) -> [Slab; 3],
) -> Answer {
    match object {
        Hittable::Sphere(sphere) => Answer::Roots(roots(sphere)),
        Hittable::Node(node) => Answer::Slabs(slabs(node.view_bbox())),
    }
}

/// A step that is given the answer for the next object leaves the outcome of
/// the search as it was: stepping until no object is left ends with the hit
/// that `visit_all` names.
pub proof fn lemma_step_keeps_outcome(
    remaining: Seq<Hittable>,
    t_interval: Interval,
    found: Option<(Sphere, i64)>,
    roots: spec_fn(Sphere) -> Roots,
    slabs: spec_fn(AABB) -> [Slab; 3],
)
    requires
        remaining.len() > 0,
    ensures
        ({
            let next = spec_step(
                remaining,
                t_interval,
                found,
                answer_for(remaining[0], roots, slabs),
            );
            visit_all(next.0, roots, slabs, t_interval, next.1) == visit_all(
                remaining,
                roots,
                slabs,
                t_interval,
                found,
            )
        }),
{
    match remaining[0] {
        Hittable::Sphere(sphere) => {},
        Hittable::Node(node) => {
            if AABB::spec_hit(slabs(node.view_bbox()), window(found, t_interval)) {
                lemma_visit_node(*node, remaining.drop_first(), roots, slabs, t_interval, found);
            }
        },
    }
}

/// The sphere of a hit.
pub open spec fn sphere_of(found: Option<(Sphere, i64)>) -> Sphere
    recommends
        found.is_some(),
{
    match found {
        Some((sphere, _)) => sphere,
        None => arbitrary(),
    }
}

/// The ray parameter of a hit.
pub open spec fn parameter(found: Option<(Sphere, i64)>) -> Option<i64> {
    match found {
        Some((_, t)) => Some(t),
        None => None,
    }
}

/// Whether the discriminant and the two roots of every sphere are numbers,
/// the near root no larger than the far one.
pub open spec fn roots_in_order(roots: spec_fn(Sphere) -> Roots) -> bool {
    forall|sphere: Sphere|
        {
            &&& is_number((#[trigger] roots(sphere)).discriminant)
            &&& is_number(roots(sphere).near)
            &&& is_number(roots(sphere).far)
            &&& roots(sphere).near <= roots(sphere).far
        }
}

/// Whether a ray that hits a sphere within an interval passes through the
/// sphere's box within it.
pub open spec fn spheres_in_boxes(
    roots: spec_fn(Sphere) -> Roots,
    slabs: spec_fn(AABB) -> [Slab; 3],
) -> bool {
    forall|sphere: Sphere, within: Interval|
        (#[trigger] Sphere::spec_hit(roots(sphere), within)).is_some() ==> AABB::spec_hit(
            slabs(sphere.view_bbox()),
            within,
        )
}

/// Whether a ray that passes through a box within an interval passes through
/// every box around it within that interval.
pub open spec fn boxes_grow(slabs: spec_fn(AABB) -> [Slab; 3]) -> bool {
    forall|inner: AABB, outer: AABB, within: Interval|
        #![trigger outer.encloses(inner), AABB::spec_hit(slabs(inner), within)]
        outer.encloses(inner) && AABB::spec_hit(slabs(inner), within) ==> AABB::spec_hit(
            slabs(outer),
            within,
        )
}

/// Whether `after` is what a search of spheres ends with that started with
/// `found`: no farther than `found`, no farther than any of the spheres that
/// `among` admits is hit within the whole interval, and either `found`
/// itself or such a hit of one of them, nearer than `found`.
pub open spec fn nearest_among(
    among: spec_fn(Sphere) -> bool,
    roots: spec_fn(Sphere) -> Roots,
    t_interval: Interval,
    found: Option<(Sphere, i64)>,
    after: Option<(Sphere, i64)>,
) -> bool {
    &&& closest(after, t_interval) <= closest(found, t_interval)
    &&& forall|sphere: Sphere| #[trigger]
        among(sphere) ==> (Sphere::spec_hit(roots(sphere), t_interval) matches Some(t)
            ==> closest(after, t_interval) <= t)
    &&& after == found || (after matches Some((sphere, t)) && among(sphere) && Sphere::spec_hit(
        roots(sphere),
        t_interval,
    ) == Some(t) && t < closest(found, t_interval))
}

/// Searching one well-formed object finds the nearest hit among its spheres.
pub proof fn lemma_visit_nearest(
    object: Hittable,
    roots: spec_fn(Sphere) -> Roots,
    slabs: spec_fn(AABB) -> [Slab; 3],
    t_interval: Interval,
    found: Option<(Sphere, i64)>,
)
    requires
        object.well_formed(),
        roots_in_order(roots),
        spheres_in_boxes(roots, slabs),
        boxes_grow(slabs),
        is_number(t_interval.min),
        is_number(t_interval.max),
        is_number(closest(found, t_interval)),
        closest(found, t_interval) <= t_interval.max,
    ensures
        nearest_among(
            |sphere: Sphere| object.leaves().contains(sphere),
            roots,
            t_interval,
            found,
            visit(object, roots, slabs, t_interval, found),
        ),
        is_number(closest(visit(object, roots, slabs, t_interval, found), t_interval)),
    decreases object,
{
    let among = |sphere: Sphere| object.leaves().contains(sphere);
    let after = visit(object, roots, slabs, t_interval, found);
    let within = window(found, t_interval);
    match object {
        Hittable::Sphere(only) => {
            lemma_hit_narrows(roots(only), t_interval, closest(found, t_interval));
            assert(object.leaves()[0] == only);
            assert forall|sphere: Sphere| #[trigger] among(sphere) implies (Sphere::spec_hit(
                roots(sphere),
                t_interval,
            ) matches Some(t) ==> closest(after, t_interval) <= t) by {
                assert(sphere == only);
            }
        },
        Hittable::Node(node) => {
            if AABB::spec_hit(slabs(node.view_bbox()), within) {
                let left = node.view_left();
                let after_left = visit(left, roots, slabs, t_interval, found);
                lemma_children_below(node);
                lemma_visit_nearest(left, roots, slabs, t_interval, found);
                let in_left = |sphere: Sphere| left.leaves().contains(sphere);
                match node.view_right() {
                    Some(right) => {
                        lemma_visit_nearest(right, roots, slabs, t_interval, after_left);
                        let in_right = |sphere: Sphere| right.leaves().contains(sphere);
                        assert forall|sphere: Sphere| #[trigger] among(sphere) implies (
                        Sphere::spec_hit(roots(sphere), t_interval) matches Some(t) ==> closest(
                            after,
                            t_interval,
                        ) <= t) by {
                            lemma_concat_contains(left.leaves(), right.leaves(), sphere);
                            assert(in_left(sphere) || in_right(sphere));
                        }
                        if after != found {
                            let hit = sphere_of(after);
                            lemma_concat_contains(left.leaves(), right.leaves(), hit);
                            if after == after_left {
                                assert(in_left(hit));
                            } else {
                                assert(in_right(hit));
                            }
                            assert(among(hit));
                        }
                    },
                    None => {
                        assert forall|sphere: Sphere| #[trigger] among(sphere) implies (
                        Sphere::spec_hit(roots(sphere), t_interval) matches Some(t) ==> closest(
                            after,
                            t_interval,
                        ) <= t) by {
                            assert(in_left(sphere));
                        }
                        if after != found {
                            assert(in_left(sphere_of(after)));
                            assert(among(sphere_of(after)));
                        }
                    },
                }
            } else {
                assert forall|sphere: Sphere| #[trigger] among(sphere) implies (Sphere::spec_hit(
                    roots(sphere),
                    t_interval,
                ) matches Some(t) ==> closest(after, t_interval) <= t) by {
                    if Sphere::spec_hit(roots(sphere), t_interval).is_some() {
                        let t = Sphere::spec_hit(roots(sphere), t_interval).unwrap();
                        if t < closest(found, t_interval) {
                            lemma_hit_narrows(
                                roots(sphere),
                                t_interval,
                                closest(found, t_interval),
                            );
                            assert(Sphere::spec_hit(roots(sphere), within).is_some());
                            assert(AABB::spec_hit(slabs(sphere.view_bbox()), within));
                            lemma_box_encloses_leaves(object, sphere);
                            assert(node.view_bbox().encloses(sphere.view_bbox()));
                            assert(AABB::spec_hit(slabs(node.view_bbox()), within));
                        }
                    }
                }
            }
        },
    }
}

/// Searching well-formed objects one after the other finds the nearest hit
/// among their spheres.
pub proof fn lemma_visit_all_nearest(
    objects: Seq<Hittable>,
    roots: spec_fn(Sphere) -> Roots,
    slabs: spec_fn(AABB) -> [Slab; 3],
    t_interval: Interval,
    found: Option<(Sphere, i64)>,
)
    requires
        forall|i: int| 0 <= i < objects.len() ==> (#[trigger] objects[i]).well_formed(),
        roots_in_order(roots),
        spheres_in_boxes(roots, slabs),
        boxes_grow(slabs),
        is_number(t_interval.min),
        is_number(t_interval.max),
        is_number(closest(found, t_interval)),
        closest(found, t_interval) <= t_interval.max,
    ensures
        nearest_among(
            |sphere: Sphere| holds_sphere(objects, sphere),
            roots,
            t_interval,
            found,
            visit_all(objects, roots, slabs, t_interval, found),
        ),
        is_number(closest(visit_all(objects, roots, slabs, t_interval, found), t_interval)),
    decreases objects.len(),
{
    let among = |sphere: Sphere| holds_sphere(objects, sphere);
    let after = visit_all(objects, roots, slabs, t_interval, found);
    if objects.len() > 0 {
        let first = objects[0];
        let rest = objects.drop_first();
        let after_first = visit(first, roots, slabs, t_interval, found);
        lemma_visit_nearest(first, roots, slabs, t_interval, found);
        assert forall|i: int| 0 <= i < rest.len() implies (#[trigger] rest[i]).well_formed() by {
            assert(rest[i] == objects[i + 1]);
        }
        lemma_visit_all_nearest(rest, roots, slabs, t_interval, after_first);
        let in_first = |sphere: Sphere| first.leaves().contains(sphere);
        let in_rest = |sphere: Sphere| holds_sphere(rest, sphere);
        assert forall|sphere: Sphere| #[trigger] among(sphere) implies (Sphere::spec_hit(
            roots(sphere),
            t_interval,
        ) matches Some(t) ==> closest(after, t_interval) <= t) by {
            let i = choose|i: int|
                0 <= i < objects.len() && (#[trigger] objects[i]).leaves().contains(sphere);
            if i == 0 {
                assert(in_first(sphere));
            } else {
                assert(rest[i - 1] == objects[i]);
                assert(in_rest(sphere));
            }
        }
        if after != found {
            let hit = sphere_of(after);
            if after == after_first {
                assert(in_first(hit));
                assert(objects[0].leaves().contains(hit));
            } else {
                assert(in_rest(hit));
                let i = choose|i: int|
                    0 <= i < rest.len() && (#[trigger] rest[i]).leaves().contains(hit);
                assert(rest[i] == objects[i + 1]);
            }
            assert(among(hit));
        }
    }
}

/// A hierarchy finds what the flat list finds: for a node built over
/// well-formed objects, the search of the node alone ends with a hit at the
/// same ray parameter as the search of the objects one by one, or both end
/// with none. This holds of arithmetic that orders the two roots of each
/// sphere, that lets a ray hit a sphere only inside the sphere's box, and
/// that lets a ray through a box also through every box around it, with
/// numbers for the roots and for the ends of the interval. Which of several
/// spheres hit at that parameter is named may differ.
pub proof fn lemma_hierarchy_finds_nearest(
    node: BVHNode,
    objects: Seq<Hittable>,
    roots: spec_fn(Sphere) -> Roots,
    slabs: spec_fn(AABB) -> [Slab; 3],
    t_interval: Interval,
)
    requires
        built(node, objects),
        forall|i: int| 0 <= i < objects.len() ==> (#[trigger] objects[i]).well_formed(),
        roots_in_order(roots),
        spheres_in_boxes(roots, slabs),
        boxes_grow(slabs),
        is_number(t_interval.min),
        is_number(t_interval.max),
    ensures
        parameter(
            visit_all(
                seq![Hittable::Node(Box::new(node))],
                roots,
                slabs,
                t_interval,
                None::<(Sphere, i64)>,
            ),
        ) == parameter(visit_all(objects, roots, slabs, t_interval, None::<(Sphere, i64)>)),
{
    let nothing = None::<(Sphere, i64)>;
    let root = Hittable::Node(Box::new(node));
    let alone = seq![root];
    let by_tree = visit_all(alone, roots, slabs, t_interval, nothing);
    let by_list = visit_all(objects, roots, slabs, t_interval, nothing);
    lemma_built_well_formed(node, objects);
    assert(alone[0].well_formed());
    lemma_visit_all_nearest(alone, roots, slabs, t_interval, nothing);
    lemma_visit_all_nearest(objects, roots, slabs, t_interval, nothing);
    let in_tree = |sphere: Sphere| holds_sphere(alone, sphere);
    let in_list = |sphere: Sphere| holds_sphere(objects, sphere);
    assert forall|sphere: Sphere| #[trigger] in_tree(sphere) == in_list(sphere) by {
        lemma_built_leaves(node, objects, sphere);
        if holds_sphere(alone, sphere) {
            let i = choose|i: int|
                0 <= i < alone.len() && (#[trigger] alone[i]).leaves().contains(sphere);
            assert(alone[i] == root);
        }
        if node.leaves().contains(sphere) {
            assert(alone[0].leaves().contains(sphere));
        }
    }
    if by_tree.is_some() {
        assert(in_tree(sphere_of(by_tree)));
        assert(in_list(sphere_of(by_tree)));
    }
    if by_list.is_some() {
        assert(in_list(sphere_of(by_list)));
        assert(in_tree(sphere_of(by_list)));
    }
}

} // verus!
