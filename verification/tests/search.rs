use lib_ray_tracer::aabb::{Interval, Slab, AABB};
use lib_ray_tracer::bvh::BVHNode;
use lib_ray_tracer::geometry::{Hittable, Roots, Sphere};
use lib_ray_tracer::material::Material;
use lib_ray_tracer::scalar::{Vec3, INFINITY};
use lib_ray_tracer::search::{Answer, Probe, Search};
use lib_ray_tracer::world::{HitRecord, World};

fn key(x: f64) -> i64 {
    lib_ray_tracer::scalar::key_of_bits(x.to_bits())
}

fn num(k: i64) -> f64 {
    f64::from_bits(lib_ray_tracer::scalar::bits_of_key(k))
}

fn keys(x: f64, y: f64, z: f64) -> Vec3 {
    Vec3::new(key(x), key(y), key(z))
}

fn nums(v: Vec3) -> [f64; 3] {
    [num(v.x), num(v.y), num(v.z)]
}

fn sphere(center: [f64; 3], radius: f64) -> Sphere {
    Sphere::stationary(
        keys(center[0], center[1], center[2]),
        key(radius),
        Material::default(),
        keys(center[0] - radius, center[1] - radius, center[2] - radius),
        keys(center[0] + radius, center[1] + radius, center[2] + radius),
    )
}

fn dot(a: [f64; 3], b: [f64; 3]) -> f64 {
    a[0] * b[0] + a[1] * b[1] + a[2] * b[2]
}

fn solve(sphere: &Sphere, origin: [f64; 3], direction: [f64; 3]) -> Roots {
    let center = nums(sphere.center1());
    let radius = num(sphere.radius());
    let oc = [origin[0] - center[0], origin[1] - center[1], origin[2] - center[2]];
    let a = dot(direction, direction);
    let half_b = dot(oc, direction);
    let c = dot(oc, oc) - radius * radius;
    let discriminant = half_b * half_b - a * c;
    if discriminant < 0.0 {
        return Roots { discriminant: key(discriminant), near: 0, far: 0 };
    }
    let root = discriminant.sqrt();
    Roots {
        discriminant: key(discriminant),
        near: key((-half_b - root) / a),
        far: key((-half_b + root) / a),
    }
}

fn cross(bbox: &AABB, origin: [f64; 3], direction: [f64; 3]) -> [Slab; 3] {
    let mut slabs = [Slab { at_min: 0, at_max: 0, d_invert: 0 }; 3];
    for axis in 0..3 {
        let extent = bbox.axis(axis);
        let d_invert = 1.0 / direction[axis];
        slabs[axis] = Slab {
            at_min: key((num(extent.min) - origin[axis]) * d_invert),
            at_max: key((num(extent.max) - origin[axis]) * d_invert),
            d_invert: key(d_invert),
        };
    }
    slabs
}

fn run(mut search: Search, origin: [f64; 3], direction: [f64; 3]) -> (Option<(Sphere, i64)>, usize) {
    let mut solved = 0;
    loop {
        match search.probe() {
            Probe::Done => break,
            Probe::Roots(sphere) => {
                solved += 1;
                search.step(&Answer::Roots(solve(sphere, origin, direction)));
            }
            Probe::Slabs(bbox) => {
                search.step(&Answer::Slabs(cross(bbox, origin, direction)));
            }
        }
    }
    (search.nearest(), solved)
}

fn everywhere() -> Interval {
    Interval::new(key(0.001), INFINITY)
}

struct Lcg(u64);

impl Lcg {
    fn next(&mut self) -> f64 {
        self.0 = self.0.wrapping_mul(6364136223846793005).wrapping_add(1442695040888963407);
        ((self.0 >> 11) as f64) / ((1u64 << 53) as f64)
    }
}

#[test]
fn sphere_straight_ahead_is_hit_at_half() {
    let mut world = World::empty();
    world.add(Hittable::Sphere(sphere([0.0, 0.0, -1.0], 0.5)));
    let origin = [0.0, 0.0, 0.0];
    let direction = [0.0, 0.0, -1.0];
    let (found, _) = run(world.hit(everywhere()), origin, direction);
    let (hit, t) = found.expect("the sphere lies straight ahead");
    assert_eq!(num(t), 0.5);
    let point = [
        origin[0] + num(t) * direction[0],
        origin[1] + num(t) * direction[1],
        origin[2] + num(t) * direction[2],
    ];
    assert_eq!(point, [0.0, 0.0, -0.5]);
    assert_eq!(nums(hit.center1()), [0.0, 0.0, -1.0]);

    let outward = [
        (point[0] - 0.0) / 0.5,
        (point[1] - 0.0) / 0.5,
        (point[2] + 1.0) / 0.5,
    ];
    let mut record = HitRecord::default();
    hit.record(
        &mut record,
        t,
        keys(point[0], point[1], point[2]),
        keys(outward[0], outward[1], outward[2]),
        key(dot(direction, outward)),
        key(0.75),
        key(0.5),
    );
    assert_eq!(num(record.t), 0.5);
    assert_eq!(nums(record.hit_point), [0.0, 0.0, -0.5]);
    assert!(record.front_face);
    assert_eq!(nums(record.normal), [0.0, 0.0, 1.0]);
    assert_eq!(num(record.u), 0.75);
    assert_eq!(num(record.v), 0.5);
}

#[test]
fn empty_world_has_no_hit() {
    let world = World::empty();
    let search = world.hit(everywhere());
    assert!(matches!(search.probe(), Probe::Done));
    assert!(search.nearest().is_none());
}

#[test]
fn nearer_of_two_spheres_wins_whatever_the_order() {
    let near = sphere([0.0, 0.0, -2.0], 0.5);
    let far = sphere([0.0, 0.0, -5.0], 0.5);
    for order in 0..2 {
        let mut world = World::empty();
        if order == 0 {
            world.add(Hittable::Sphere(near));
            world.add(Hittable::Sphere(far));
        } else {
            world.add(Hittable::Sphere(far));
            world.add(Hittable::Sphere(near));
        }
        let (found, solved) = run(world.hit(everywhere()), [0.0; 3], [0.0, 0.0, -1.0]);
        let (hit, t) = found.unwrap();
        assert_eq!(num(t), 1.5);
        assert_eq!(nums(hit.center1()), [0.0, 0.0, -2.0]);
        assert_eq!(solved, 2);
    }
}

#[test]
fn search_narrows_the_interval_to_the_nearest_hit() {
    let mut world = World::empty();
    world.add(Hittable::Sphere(sphere([0.0, 0.0, -5.0], 0.5)));
    world.add(Hittable::Sphere(sphere([0.0, 0.0, -2.0], 0.5)));
    let mut search = world.hit(everywhere());
    assert_eq!(search.interval(), everywhere());
    let first = match search.probe() {
        Probe::Roots(sphere) => solve(sphere, [0.0; 3], [0.0, 0.0, -1.0]),
        _ => panic!("a sphere comes first"),
    };
    search.step(&Answer::Roots(first));
    assert_eq!(search.interval(), Interval::new(key(0.001), key(4.5)));
    let second = match search.probe() {
        Probe::Roots(sphere) => solve(sphere, [0.0; 3], [0.0, 0.0, -1.0]),
        _ => panic!("a sphere comes second"),
    };
    search.step(&Answer::Roots(second));
    assert_eq!(search.interval(), Interval::new(key(0.001), key(1.5)));
    assert!(matches!(search.probe(), Probe::Done));
}

#[test]
fn hit_from_inside_takes_the_far_root() {
    let mut world = World::empty();
    world.add(Hittable::Sphere(sphere([0.0, 0.0, 0.0], 2.0)));
    let (found, _) = run(world.hit(everywhere()), [0.0; 3], [1.0, 0.0, 0.0]);
    assert_eq!(num(found.unwrap().1), 2.0);
}

#[test]
fn ray_that_passes_beside_every_sphere_finds_none() {
    let mut world = World::empty();
    world.add(Hittable::Sphere(sphere([0.0, 0.0, -5.0], 0.5)));
    world.add(Hittable::Sphere(sphere([3.0, 0.0, -5.0], 0.5)));
    let (found, _) = run(world.hit(everywhere()), [0.0, 5.0, 0.0], [0.0, 0.0, -1.0]);
    assert!(found.is_none());
}

#[test]
fn hierarchy_skips_spheres_in_boxes_that_the_ray_misses() {
    let mut objects = Vec::new();
    for i in 0..64 {
        objects.push(Hittable::Sphere(sphere([3.0 * i as f64, 0.0, -5.0], 0.5)));
    }
    let mut world = World::empty();
    world.add(Hittable::Node(Box::new(BVHNode::new(objects))));
    let (found, solved) = run(world.hit(everywhere()), [30.0, 0.1, 0.2], [0.01, 0.02, -1.0]);
    let (hit, _) = found.unwrap();
    assert_eq!(nums(hit.center1()), [30.0, 0.0, -5.0]);
    assert!(solved < 8, "{} spheres were solved", solved);
}

#[test]
fn hierarchy_and_flat_list_find_the_same_nearest_hit() {
    let mut random = Lcg(0x2545F4914F6CDD1D);
    let mut centers = Vec::new();
    for _ in 0..150 {
        let center = [
            20.0 * random.next() - 10.0,
            20.0 * random.next() - 10.0,
            20.0 * random.next() - 10.0,
        ];
        centers.push((center, 0.2 + random.next()));
    }
    let mut flat = World::empty();
    let mut objects = Vec::new();
    for (center, radius) in centers.iter() {
        flat.add(Hittable::Sphere(sphere(*center, *radius)));
        objects.push(Hittable::Sphere(sphere(*center, *radius)));
    }
    let mut indexed = World::empty();
    indexed.add(Hittable::Node(Box::new(BVHNode::new(objects))));

    let mut hits = 0;
    let mut solved_flat = 0;
    let mut solved_indexed = 0;
    for _ in 0..400 {
        let origin = [
            30.0 * random.next() - 15.0,
            30.0 * random.next() - 15.0,
            30.0 * random.next() - 15.0,
        ];
        let direction = [
            16.0 * random.next() - 8.0 - origin[0],
            16.0 * random.next() - 8.0 - origin[1],
            16.0 * random.next() - 8.0 - origin[2],
        ];
        let (by_list, a) = run(flat.hit(everywhere()), origin, direction);
        let (by_tree, b) = run(indexed.hit(everywhere()), origin, direction);
        solved_flat += a;
        solved_indexed += b;
        assert_eq!(by_list.is_some(), by_tree.is_some());
        if let (Some((_, t_list)), Some((_, t_tree))) = (by_list, by_tree) {
            hits += 1;
            assert!((num(t_list) - num(t_tree)).abs() <= 1e-9 * num(t_list).abs());
            for axis in 0..3 {
                let p_list = origin[axis] + num(t_list) * direction[axis];
                let p_tree = origin[axis] + num(t_tree) * direction[axis];
                assert!((p_list - p_tree).abs() <= 1e-9 * (1.0 + p_list.abs()));
            }
        }
    }
    assert!(hits > 100, "only {} rays hit anything", hits);
    assert_eq!(solved_flat, 150 * 400);
    assert!(solved_indexed * 4 < solved_flat);
}

#[test]
fn world_box_grows_with_each_object() {
    let mut world = World::empty();
    assert_eq!(*world.bounding_box(), AABB::default());
    world.add(Hittable::Sphere(sphere([2.0, 3.0, -4.0], 1.0)));
    let bbox = *world.bounding_box();
    assert_eq!(bbox.x, Interval::new(key(0.0), key(3.0)));
    assert_eq!(bbox.y, Interval::new(key(0.0), key(4.0)));
    assert_eq!(bbox.z, Interval::new(key(-5.0), key(0.0)));
    world.add(Hittable::Sphere(sphere([-6.0, 0.0, 0.0], 0.5)));
    assert_eq!(world.bounding_box().x, Interval::new(key(-6.5), key(3.0)));
    assert_eq!(world.objects().len(), 2);
    let objects = world.into_objects();
    assert_eq!(objects.len(), 2);
    assert!(matches!(&objects[1], Hittable::Sphere(s) if nums(s.center1()) == [-6.0, 0.0, 0.0]));
}
