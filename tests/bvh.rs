use std::cmp::Ordering;

use rand::rngs::SmallRng;
use rand::SeedableRng;
use raytracer::bounds::{BoundingBox, Point3};
use raytracer::bvh::{box_cmp, BvhChild, BvhNode};

fn bx(min: (u32, u32, u32), max: (u32, u32, u32)) -> BoundingBox {
    BoundingBox::new(Point3::new(min.0, min.1, min.2), Point3::new(max.0, max.1, max.2))
}

fn child_box(c: &BvhChild, boxes: &[Option<BoundingBox>]) -> BoundingBox {
    match c {
        BvhChild::Primitive(i) => boxes[*i].unwrap(),
        BvhChild::Node(n) => n.bbox,
    }
}

/// Collects the primitives beneath a node, checking each node's box on the way.
fn walk(n: &BvhNode, boxes: &[Option<BoundingBox>], out: &mut Vec<usize>) {
    let expect = child_box(&n.left, boxes).union(&child_box(&n.right, boxes));
    assert_eq!(n.bbox, expect);
    match (&n.left, &n.right) {
        (BvhChild::Primitive(a), BvhChild::Primitive(b)) => {
            out.push(*a);
            if a != b {
                out.push(*b);
            }
        }
        (BvhChild::Node(l), BvhChild::Node(r)) => {
            let mut lo = vec![];
            let mut hi = vec![];
            walk(l, boxes, &mut lo);
            walk(r, boxes, &mut hi);
            assert_eq!(lo.len(), (lo.len() + hi.len()) / 2);
            let ordered = (0..3).any(|axis| {
                let key = |p: usize| {
                    let m = boxes[p].unwrap().min;
                    [m.x, m.y, m.z][axis]
                };
                lo.iter().all(|&a| hi.iter().all(|&b| key(a) <= key(b)))
            });
            assert!(ordered);
            out.extend(lo);
            out.extend(hi);
        }
        _ => panic!("mixed children"),
    }
}

fn scene(n: u32) -> Vec<Option<BoundingBox>> {
    (0..n)
        .map(|i| {
            let k = (i * 7919) % 101;
            Some(bx((k, 100 - k % 50, i), (k + 3, 120, i + 1)))
        })
        .collect()
}

#[test]
fn box_cmp_orders_by_minimum_on_axis() {
    let a = Some(bx((1, 9, 5), (2, 10, 6)));
    let b = Some(bx((3, 4, 5), (4, 5, 6)));
    assert_eq!(box_cmp(&a, &b, 0), Ordering::Less);
    assert_eq!(box_cmp(&a, &b, 1), Ordering::Greater);
    assert_eq!(box_cmp(&a, &b, 2), Ordering::Equal);
}

#[test]
fn box_cmp_puts_unbounded_first() {
    let a = Some(bx((1, 1, 1), (2, 2, 2)));
    assert_eq!(box_cmp(&None, &a, 0), Ordering::Less);
    assert_eq!(box_cmp(&a, &None, 2), Ordering::Greater);
}

#[test]
fn single_primitive_is_held_on_both_sides() {
    let boxes = scene(1);
    let mut rng = SmallRng::seed_from_u64(0);
    let node = BvhNode::new(&boxes, &mut rng);
    assert!(matches!(node.left, BvhChild::Primitive(0)));
    assert!(matches!(node.right, BvhChild::Primitive(0)));
    assert_eq!(node.bbox, boxes[0].unwrap());
}

#[test]
fn two_primitives_are_direct_children() {
    let boxes = scene(2);
    let mut rng = SmallRng::seed_from_u64(1);
    let node = BvhNode::new(&boxes, &mut rng);
    assert!(matches!(node.left, BvhChild::Primitive(0)));
    assert!(matches!(node.right, BvhChild::Primitive(1)));
    assert_eq!(node.bbox, boxes[0].unwrap().union(&boxes[1].unwrap()));
}

#[test]
fn hierarchy_holds_every_primitive_once() {
    for n in [3u32, 4, 5, 8, 17, 64] {
        for seed in 0..4 {
            let boxes = scene(n);
            let mut rng = SmallRng::seed_from_u64(seed);
            let node = BvhNode::new(&boxes, &mut rng);
            let mut prims = vec![];
            walk(&node, &boxes, &mut prims);
            prims.sort();
            assert_eq!(prims, (0..n as usize).collect::<Vec<_>>());
        }
    }
}

#[test]
fn root_box_is_union_of_all_boxes() {
    let boxes = scene(23);
    let mut rng = SmallRng::seed_from_u64(7);
    let node = BvhNode::new(&boxes, &mut rng);
    let all = boxes.iter().skip(1).fold(boxes[0].unwrap(), |acc, b| acc.union(&b.unwrap()));
    assert_eq!(node.bbox, all);
}

#[test]
fn same_seed_builds_same_hierarchy() {
    let boxes = scene(40);
    let a = BvhNode::new(&boxes, &mut SmallRng::seed_from_u64(3));
    let b = BvhNode::new(&boxes, &mut SmallRng::seed_from_u64(3));
    let (mut pa, mut pb) = (vec![], vec![]);
    walk(&a, &boxes, &mut pa);
    walk(&b, &boxes, &mut pb);
    assert_eq!(pa, pb);
}

#[test]
fn equal_keys_are_split_in_half() {
    let boxes: Vec<Option<BoundingBox>> = (0..6).map(|_| Some(bx((1, 1, 1), (2, 2, 2)))).collect();
    let node = BvhNode::new(&boxes, &mut SmallRng::seed_from_u64(9));
    let mut prims = vec![];
    walk(&node, &boxes, &mut prims);
    assert_eq!(prims, vec![0, 1, 2, 3, 4, 5]);
}

fn height(n: &BvhNode) -> u32 {
    let h = |c: &BvhChild| match c {
        BvhChild::Primitive(_) => 0,
        BvhChild::Node(m) => height(m),
    };
    1 + h(&n.left).max(h(&n.right))
}

#[test]
fn height_is_logarithmic() {
    for (n, bound) in [(2u32, 1u32), (3, 2), (4, 2), (5, 3), (8, 3), (9, 4), (100, 7), (1000, 10)] {
        let boxes = scene(n);
        let node = BvhNode::new(&boxes, &mut SmallRng::seed_from_u64(n as u64));
        assert!(height(&node) <= bound, "n = {}", n);
    }
}
