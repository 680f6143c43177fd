use epidemic_sim::constants::NODE_CAPACITY;
use epidemic_sim::person::{Person, Position, Status};
use epidemic_sim::quadtree::{IndexError, QuadTree, QuadTreeRegion};

fn domain() -> QuadTreeRegion {
    QuadTreeRegion::new(0, 0, 800, 800)
}

fn person_at(id: usize, x: u32, y: u32) -> Person {
    Person::new(id, Position::new(x, y), Status::Healthy)
}

fn sorted_ids(people: &[Person]) -> Vec<usize> {
    let mut ids: Vec<usize> = people.iter().map(|p| p.id).collect();
    ids.sort();
    ids
}

#[test]
fn new_rejects_degenerate_domain() {
    assert_eq!(
        QuadTree::new(QuadTreeRegion::new(0, 0, 0, 800)).err(),
        Some(IndexError::InvalidRegion)
    );
    assert_eq!(
        QuadTree::new(QuadTreeRegion::new(5, 5, 10, 0)).err(),
        Some(IndexError::InvalidRegion)
    );
    assert!(QuadTree::new(domain()).is_ok());
}

#[test]
fn new_rejects_unrepresentable_domain() {
    // The far corner would overflow the u32 coordinate space.
    assert_eq!(
        QuadTree::new(QuadTreeRegion::new(u32::MAX - 5, 0, 10, 10)).err(),
        Some(IndexError::InvalidRegion)
    );
}

#[test]
fn out_of_bounds_rejection() {
    // A coordinate left of x = 0 is not even representable in the index's
    // unsigned coordinate space, so the probe sits outside the domain on
    // the far side instead.
    let mut tree = QuadTree::new(domain()).unwrap();
    tree.insert(person_at(0, 5, 5)).unwrap();
    assert_eq!(tree.len(), 1);
    let outside = person_at(1, 801, 5);
    assert_eq!(tree.insert(outside), Err(IndexError::OutOfBounds));
    assert_eq!(tree.len(), 1);
}

#[test]
fn boundary_points_are_contained() {
    // Containment is closed: the domain's far corner and edges belong to it.
    let mut tree = QuadTree::new(domain()).unwrap();
    tree.insert(person_at(0, 0, 0)).unwrap();
    tree.insert(person_at(1, 800, 800)).unwrap();
    tree.insert(person_at(2, 0, 800)).unwrap();
    tree.insert(person_at(3, 800, 0)).unwrap();
    assert_eq!(tree.len(), 4);
    let all = tree.query_range(&domain());
    assert_eq!(sorted_ids(&all), vec![0, 1, 2, 3]);
}

#[test]
fn containment_round_trip() {
    // Everything inserted successfully comes back from a full-domain query
    // exactly once.
    let mut tree = QuadTree::new(domain()).unwrap();
    let points = [(3u32, 4u32), (100, 700), (799, 1), (400, 400), (0, 657)];
    for (i, (x, y)) in points.iter().enumerate() {
        tree.insert(person_at(i, *x, *y)).unwrap();
    }
    let all = tree.query_range(&domain());
    assert_eq!(sorted_ids(&all), vec![0, 1, 2, 3, 4]);
}

#[test]
fn query_soundness_mixed_region() {
    // An entity is in the answer iff its coordinates lie in the queried
    // region: no false positives from pruning, no false negatives.
    let mut tree = QuadTree::new(domain()).unwrap();
    tree.insert(person_at(0, 10, 10)).unwrap();
    tree.insert(person_at(1, 50, 50)).unwrap();
    tree.insert(person_at(2, 51, 50)).unwrap();
    tree.insert(person_at(3, 700, 700)).unwrap();
    let q = QuadTreeRegion::new(0, 0, 50, 50);
    let hits = tree.query_range(&q);
    assert_eq!(sorted_ids(&hits), vec![0, 1]);
}

#[test]
fn query_completeness_insertion_order_irrelevant() {
    let points = [(3u32, 4u32), (100, 700), (799, 1), (400, 400), (0, 657), (400, 401)];
    let mut forward = QuadTree::new(domain()).unwrap();
    for (i, (x, y)) in points.iter().enumerate() {
        forward.insert(person_at(i, *x, *y)).unwrap();
    }
    let mut backward = QuadTree::new(domain()).unwrap();
    for (i, (x, y)) in points.iter().enumerate().rev() {
        backward.insert(person_at(i, *x, *y)).unwrap();
    }
    assert_eq!(
        sorted_ids(&forward.query_range(&domain())),
        sorted_ids(&backward.query_range(&domain()))
    );
    assert_eq!(sorted_ids(&forward.query_range(&domain())).len(), points.len());
}

#[test]
fn idempotent_querying() {
    let mut tree = QuadTree::new(domain()).unwrap();
    for i in 0..40usize {
        tree.insert(person_at(i, (i as u32 * 37) % 801, (i as u32 * 101) % 801))
            .unwrap();
    }
    let q = QuadTreeRegion::new(100, 100, 300, 300);
    let first = tree.query_range(&q);
    let second = tree.query_range(&q);
    assert_eq!(sorted_ids(&first), sorted_ids(&second));
}

#[test]
fn capacity_trigger() {
    // NODE_CAPACITY entities leave the root an undivided leaf; the next
    // insert forces exactly one subdivision at the root.
    let mut tree = QuadTree::new(domain()).unwrap();
    for i in 0..NODE_CAPACITY {
        tree.insert(person_at(i, i as u32 * 40, i as u32 * 40)).unwrap();
        assert!(!tree.height_exceeds(0));
    }
    assert_eq!(tree.len(), NODE_CAPACITY);
    tree.insert(person_at(NODE_CAPACITY, 650, 12)).unwrap();
    assert!(tree.height_exceeds(0));
    assert!(!tree.height_exceeds(1));
    assert_eq!(tree.len(), NODE_CAPACITY + 1);
    // The full-domain query still sees everything, subdivided or not.
    let all = tree.query_range(&domain());
    assert_eq!(all.len(), NODE_CAPACITY + 1);
}

#[test]
fn duplicate_positions_are_kept() {
    let mut tree = QuadTree::new(domain()).unwrap();
    tree.insert(person_at(0, 42, 42)).unwrap();
    tree.insert(person_at(1, 42, 42)).unwrap();
    let hits = tree.query_range(&QuadTreeRegion::new(42, 42, 0, 0));
    assert_eq!(sorted_ids(&hits), vec![0, 1]);
}

#[test]
fn empty_tree_answers_empty() {
    let tree = QuadTree::new(domain()).unwrap();
    assert_eq!(tree.len(), 0);
    assert!(tree.query_range(&domain()).is_empty());
}

#[test]
fn split_seam_points_found() {
    // Points exactly on the midlines of the root region still come back
    // after the root subdivides.
    let mut tree = QuadTree::new(domain()).unwrap();
    for i in 0..NODE_CAPACITY {
        tree.insert(person_at(i, 1 + i as u32, 1)).unwrap();
    }
    // These land on the seam x = 400 / y = 400 after the split.
    tree.insert(person_at(100, 400, 400)).unwrap();
    tree.insert(person_at(101, 400, 0)).unwrap();
    tree.insert(person_at(102, 0, 400)).unwrap();
    assert!(tree.height_exceeds(0));
    let all = tree.query_range(&domain());
    assert_eq!(all.len(), NODE_CAPACITY + 3);
    let seam = tree.query_range(&QuadTreeRegion::new(400, 400, 0, 0));
    assert_eq!(sorted_ids(&seam), vec![100]);
}

#[test]
fn deep_subdivision_keeps_everything_findable() {
    // Crowd one quadrant until a child node subdivides in turn: the tree
    // reaches height 2 and a full-domain query still sees every entity.
    let mut tree = QuadTree::new(domain()).unwrap();
    for i in 0..33usize {
        tree.insert(person_at(i, i as u32, i as u32)).unwrap();
    }
    assert!(tree.height_exceeds(1));
    assert!(!tree.height_exceeds(2));
    let all = tree.query_range(&domain());
    assert_eq!(sorted_ids(&all), (0..33usize).collect::<Vec<usize>>());
    let corner = tree.query_range(&QuadTreeRegion::new(0, 0, 10, 10));
    assert_eq!(sorted_ids(&corner), (0..11usize).collect::<Vec<usize>>());
}

#[test]
fn region_split_exactness() {
    // Quartering an odd-sided region: the four child areas sum exactly to
    // the parent area, and the children only touch on shared edges.
    let r = QuadTreeRegion::new(0, 0, 801, 801);
    let (nw, ne, sw, se) = r.split();
    assert_eq!(nw, QuadTreeRegion::new(0, 0, 400, 400));
    assert_eq!(ne, QuadTreeRegion::new(400, 0, 401, 400));
    assert_eq!(sw, QuadTreeRegion::new(0, 400, 400, 401));
    assert_eq!(se, QuadTreeRegion::new(400, 400, 401, 401));
    let area = |q: &QuadTreeRegion| q.width as u64 * q.height as u64;
    assert_eq!(area(&nw) + area(&ne) + area(&sw) + area(&se), area(&r));
}

#[test]
fn region_overlap_and_containment() {
    let a = QuadTreeRegion::new(0, 0, 10, 10);
    let b = QuadTreeRegion::new(10, 10, 5, 5);
    let c = QuadTreeRegion::new(11, 0, 5, 5);
    // Boundary touching counts as overlap.
    assert!(a.overlaps(&b));
    assert!(b.overlaps(&a));
    assert!(!a.overlaps(&c));
    let on_edge = person_at(0, 10, 0);
    assert!(a.contains(&on_edge));
    let beyond = person_at(1, 11, 0);
    assert!(!a.contains(&beyond));
}

#[test]
fn query_region_outside_domain_is_empty() {
    let mut tree = QuadTree::new(domain()).unwrap();
    tree.insert(person_at(0, 400, 400)).unwrap();
    let far = QuadTreeRegion::new(900, 900, 50, 50);
    assert!(tree.query_range(&far).is_empty());
}
