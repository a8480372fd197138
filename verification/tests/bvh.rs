use beevee::geometry::{Point, Ray, Vector};
use beevee::shape::{Brick, Dot, Intersected, ShapeEnum};
use beevee::tree::BVH;
use beevee::walk::cast_ray;

fn dot(x: i64, y: i64, z: i64) -> Dot {
    Dot::new(Point::new(x, y, z))
}

fn ray(ox: i64, oy: i64, oz: i64, dx: i64, dy: i64, dz: i64) -> Ray {
    Ray::new(Point::new(ox, oy, oz), Vector::new(dx, dy, dz))
}

#[test]
fn single_object_is_one_leaf() {
    for cap in [1usize, 2, 32] {
        let mut objs = vec![dot(3, 4, 5)];
        let bvh = BVH::with_max_capacity(&mut objs, cap);
        assert_eq!(bvh.leaf_spans(), vec![(0, 1)]);
        assert_eq!(bvh.leaf_count(), 1);
        assert!(bvh.is_sound(&objs));
        // A ray toward the object hits it at the known squared distance.
        let toward = ray(0, 0, 0, 3, 4, 5);
        assert_eq!(bvh.walk(&toward, &objs), Some((50, 0)));
        // A ray away from it hits nothing.
        let away = ray(0, 0, 0, -3, -4, -5);
        assert_eq!(bvh.walk(&away, &objs), None);
    }
}

#[test]
fn ray_through_empty_subtree_box_misses() {
    // Two clusters far apart; the ray crosses the far cluster's bounding
    // box without touching any object in it.
    let mut objs = vec![
        dot(0, 0, 0),
        dot(100, 100, 100),
        dot(2, 2, 2),
        dot(102, 102, 102),
    ];
    let bvh = BVH::with_max_capacity(&mut objs, 1);
    assert!(bvh.is_sound(&objs));
    let crossing = ray(-10, 101, 101, 1, 0, 0);
    assert_eq!(bvh.walk(&crossing, &objs), None);
    assert_eq!(cast_ray(&crossing, &objs), None);
}

#[test]
fn two_separated_objects_make_one_internal_and_two_leaves() {
    let mut objs = vec![dot(10, 10, 10), dot(0, 0, 0)];
    let bvh = BVH::with_max_capacity(&mut objs, 1);
    assert_eq!(bvh.leaf_count(), 2);
    assert_eq!(bvh.leaf_spans(), vec![(0, 1), (1, 2)]);
    assert!(bvh.is_sound(&objs));
    // This ray passes through both objects; the closer one wins.
    let through_both = ray(-2, -2, -2, 1, 1, 1);
    let hit = bvh.walk(&through_both, &objs).expect("both objects lie on the ray");
    assert_eq!(hit.0, 12);
    assert_eq!(objs[hit.1].pos, Point::new(0, 0, 0));
    assert_eq!(cast_ray(&through_both, &objs).map(|(d, _)| d), Some(12));
}

#[test]
fn degenerate_coincident_objects_build_soundly() {
    // 64 zero-volume objects with one shared centroid.
    let mut objs: Vec<Dot> = (0..64).map(|_| dot(5, 5, 5)).collect();
    let bvh = BVH::with_max_capacity(&mut objs, 32);
    assert!(bvh.is_sound(&objs));
    let through = ray(0, 0, 0, 1, 1, 1);
    let hit = bvh.walk(&through, &objs).expect("the shared point lies on the ray");
    assert_eq!(hit.0, 75);
}

#[test]
fn degenerate_coincident_centroids_with_volume_build_soundly() {
    // 64 boxes sharing one centroid corner but of many different extents.
    let mut objs: Vec<Brick> = (0..64i64)
        .map(|k| {
            Brick::new(
                Point::new(0, 0, 0),
                Point::new(1 + k % 3, 1 + (k / 3) % 3, 1 + (k / 9) % 3),
            )
        })
        .collect();
    let bvh = BVH::with_max_capacity(&mut objs, 32);
    assert!(bvh.is_sound(&objs));
    let spans = bvh.leaf_spans();
    assert_eq!(spans.first().unwrap().0, 0);
    assert_eq!(spans.last().unwrap().1, 64);
    for w in spans.windows(2) {
        assert_eq!(w[0].1, w[1].0);
    }
}

#[test]
fn leaf_spans_tile_the_collection() {
    let mut objs: Vec<Dot> = (0..40i64)
        .map(|i| dot(i * 13 % 37, i * i % 29, i * 7 % 23))
        .collect();
    let bvh = BVH::with_max_capacity(&mut objs, 4);
    let spans = bvh.leaf_spans();
    assert!(!spans.is_empty());
    assert_eq!(spans.len(), bvh.leaf_count());
    assert_eq!(spans.first().unwrap().0, 0);
    assert_eq!(spans.last().unwrap().1, 40);
    for w in spans.windows(2) {
        assert_eq!(w[0].1, w[1].0);
    }
    assert!(bvh.is_sound(&objs));
}

#[test]
fn larger_capacity_never_means_more_leaves() {
    let base: Vec<Dot> = (0..16i64)
        .map(|i| dot(i, i * i % 17, i * 31 % 13))
        .collect();
    let mut last = usize::MAX;
    for cap in [1usize, 2, 4, 8, 16, 32] {
        let mut objs = base.clone();
        let bvh = BVH::with_max_capacity(&mut objs, cap);
        let count = bvh.leaf_count();
        assert!(count <= last, "capacity {} produced {} leaves, more than {}", cap, count, last);
        last = count;
    }
    assert_eq!(last, 1);
}

#[test]
fn rebuilding_any_permutation_stays_sound() {
    let mut objs: Vec<Dot> = (0..24i64)
        .map(|i| dot(i * 5 % 19, i * 3 % 11, i))
        .collect();
    let first = BVH::with_max_capacity(&mut objs, 3);
    assert!(first.is_sound(&objs));
    // The collection now sits in whatever order the first build left it;
    // rebuilding from that permutation is sound again.
    let second = BVH::with_max_capacity(&mut objs, 3);
    assert!(second.is_sound(&objs));
    let third = BVH::with_max_capacity(&mut objs, 7);
    assert!(third.is_sound(&objs));
}

#[test]
fn builder_groups_objects_around_the_split() {
    // Two interleaved clusters; the partition step must bring each cluster
    // together, which only happens if the selection really reorders.
    let mut objs = vec![
        dot(0, 0, 0),
        dot(100, 100, 100),
        dot(2, 2, 2),
        dot(102, 102, 102),
    ];
    let bvh = BVH::with_max_capacity(&mut objs, 1);
    assert!(bvh.is_sound(&objs));
    let mut low: Vec<i64> = objs[0..2].iter().map(|d| d.pos.x).collect();
    low.sort();
    assert_eq!(low, vec![0, 2]);
    let mut high: Vec<i64> = objs[2..4].iter().map(|d| d.pos.x).collect();
    high.sort();
    assert_eq!(high, vec![100, 102]);
}

#[test]
fn walk_agrees_with_cast_ray() {
    // A deterministic spread of objects and rays; the pruning walk and the
    // exhaustive scan must agree on every query.
    let mut state: u64 = 0x2545F4914F6CDD1D;
    let mut next = move || {
        state ^= state << 13;
        state ^= state >> 7;
        state ^= state << 17;
        state
    };
    let mut objs: Vec<Dot> = (0..40)
        .map(|_| {
            dot(
                (next() % 41) as i64 - 20,
                (next() % 41) as i64 - 20,
                (next() % 41) as i64 - 20,
            )
        })
        .collect();
    let targets: Vec<Point> = objs.iter().map(|d| d.pos).collect();
    let bvh = BVH::with_max_capacity(&mut objs, 4);
    assert!(bvh.is_sound(&objs));
    let mut hits = 0usize;
    for (i, t) in targets.iter().enumerate() {
        let ox = (i as i64 % 7) - 24;
        let oy = ((i * 3) as i64 % 9) - 24;
        let oz = ((i * 5) as i64 % 11) - 24;
        let r = ray(ox, oy, oz, t.x - ox, t.y - oy, t.z - oz);
        let walked = bvh.walk(&r, &objs);
        let scanned = cast_ray(&r, &objs);
        assert_eq!(walked.is_some(), scanned.is_some());
        if let (Some((dw, _)), Some((ds, _))) = (walked, scanned) {
            assert_eq!(dw, ds);
            hits += 1;
        }
    }
    assert!(hits > 0, "at least the rays aimed at objects must hit");
    // Rays aimed at nothing miss in both.
    for k in 0..20i64 {
        let r = ray(-30, -30 + k, 30, 1, 0, 0);
        assert_eq!(bvh.walk(&r, &objs), None);
        assert_eq!(cast_ray(&r, &objs), None);
    }
}

#[test]
fn heterogeneous_shapes_share_one_tree() {
    let mut objs = vec![
        ShapeEnum::Dot(dot(8, 8, 8)),
        ShapeEnum::Brick(Brick::new(Point::new(2, 2, 2), Point::new(4, 4, 4))),
    ];
    let bvh = BVH::with_max_capacity(&mut objs, 1);
    assert!(bvh.is_sound(&objs));
    // From the origin, the brick's nearest point is at squared distance 12,
    // closer than the dot at 192.
    let r = ray(0, 0, 0, 1, 1, 1);
    let hit = bvh.walk(&r, &objs).expect("the brick reports its proximity");
    assert_eq!(hit.0, 12);
    assert!(matches!(objs[hit.1], ShapeEnum::Brick(_)));
    assert_eq!(cast_ray(&r, &objs).map(|(d, _)| d), Some(12));
}

#[test]
fn brick_reports_distance_to_nearest_point() {
    let brick = Brick::new(Point::new(2, 2, 2), Point::new(4, 4, 4));
    assert_eq!(brick.intersect(&ray(0, 0, 0, 1, 0, 0)), Some(12));
    // From inside the box the distance is zero.
    assert_eq!(brick.intersect(&ray(3, 3, 3, 1, 0, 0)), Some(0));
}

#[test]
fn dot_intersect_needs_the_exact_line() {
    let d = dot(4, 4, 0);
    assert_eq!(d.intersect(&ray(0, 0, 0, 1, 1, 0)), Some(32));
    // Pointing backward misses.
    assert_eq!(d.intersect(&ray(0, 0, 0, -1, -1, 0)), None);
    // A parallel line beside the point misses.
    assert_eq!(d.intersect(&ray(1, 0, 0, 1, 1, 0)), None);
}
