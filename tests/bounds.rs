use raytracer::bounds::{list_bounding_box, BoundingBox, Point3};

fn bx(min: (u32, u32, u32), max: (u32, u32, u32)) -> BoundingBox {
    BoundingBox::new(Point3::new(min.0, min.1, min.2), Point3::new(max.0, max.1, max.2))
}

#[test]
fn union_takes_min_of_mins_and_max_of_maxes() {
    let a = bx((1, 5, 3), (4, 9, 6));
    let b = bx((2, 0, 3), (8, 7, 10));
    let u = a.union(&b);
    assert_eq!(u, bx((1, 0, 3), (8, 9, 10)));
    assert_eq!(b.union(&a), u);
}

#[test]
fn union_encloses_both_inputs() {
    let a = bx((10, 20, 30), (11, 21, 31));
    let b = bx((5, 25, 29), (12, 22, 40));
    let u = a.union(&b);
    for (p, q) in [(a, u), (b, u)] {
        assert!(q.min.x <= p.min.x && q.min.y <= p.min.y && q.min.z <= p.min.z);
        assert!(q.max.x >= p.max.x && q.max.y >= p.max.y && q.max.z >= p.max.z);
    }
}

#[test]
fn union_with_itself_is_itself() {
    let a = bx((3, 3, 3), (7, 8, 9));
    assert_eq!(a.union(&a), a);
}

#[test]
fn default_box_is_the_zero_point() {
    assert_eq!(BoundingBox::default(), bx((0, 0, 0), (0, 0, 0)));
}

#[test]
fn list_box_of_empty_list_is_none() {
    assert_eq!(list_bounding_box(&vec![]), None);
}

#[test]
fn list_box_of_unbounded_objects_is_none() {
    assert_eq!(list_bounding_box(&vec![None, None]), None);
}

#[test]
fn list_box_skips_unbounded_objects() {
    let a = bx((1, 1, 1), (2, 2, 2));
    let b = bx((0, 5, 1), (1, 6, 3));
    let r = list_bounding_box(&vec![None, Some(a), None, Some(b)]);
    assert_eq!(r, Some(bx((0, 1, 1), (2, 6, 3))));
}

#[test]
fn list_box_of_one_object_is_its_box() {
    let a = bx((4, 5, 6), (7, 8, 9));
    assert_eq!(list_bounding_box(&vec![Some(a)]), Some(a));
}
