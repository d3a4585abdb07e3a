use rust_raytracer::aabb::{larger, smaller, GridPoint, AABB};

fn bx(min: (i64, i64, i64), max: (i64, i64, i64)) -> AABB {
    AABB::new(GridPoint::new(min.0, min.1, min.2), GridPoint::new(max.0, max.1, max.2))
}

#[test]
fn new_keeps_the_corners() {
    let b = bx((1, 2, 3), (4, 5, 6));
    assert_eq!(b.min, GridPoint { x: 1, y: 2, z: 3 });
    assert_eq!(b.max, GridPoint { x: 4, y: 5, z: 6 });
}

#[test]
fn coord_picks_the_axis() {
    let p = GridPoint::new(7, -8, 9);
    assert_eq!((p.coord(0), p.coord(1), p.coord(2)), (7, -8, 9));
}

#[test]
fn smaller_and_larger() {
    assert_eq!((smaller(3, -4), larger(3, -4)), (-4, 3));
    assert_eq!((smaller(5, 5), larger(5, 5)), (5, 5));
    assert_eq!((smaller(i64::MIN, i64::MAX), larger(i64::MIN, i64::MAX)), (i64::MIN, i64::MAX));
}

#[test]
fn surrounding_of_two_boxes() {
    let a = bx((0, 0, 0), (1, 5, 1));
    let b = bx((-2, 1, 0), (0, 2, 7));
    assert_eq!(AABB::from_surrounding(a, b), bx((-2, 0, 0), (1, 5, 7)));
}

#[test]
fn surrounding_of_a_box_and_a_box_inside_it() {
    let a = bx((-10, -10, -10), (10, 10, 10));
    let b = bx((-1, 0, 1), (2, 3, 4));
    assert_eq!(AABB::from_surrounding(a, b), a);
    assert_eq!(AABB::from_surrounding(b, a), a);
    assert_eq!(AABB::from_surrounding(a, a), a);
}

#[test]
fn surrounding_is_commutative_and_associative() {
    let boxes = [
        bx((0, 0, 0), (1, 1, 1)),
        bx((-5, 2, 3), (-4, 9, 4)),
        bx((3, -7, 0), (8, -6, 2)),
        bx((i64::MIN, 0, 0), (i64::MAX, 0, 0)),
    ];
    for a in boxes {
        for b in boxes {
            assert_eq!(AABB::from_surrounding(a, b), AABB::from_surrounding(b, a));
            for c in boxes {
                assert_eq!(
                    AABB::from_surrounding(AABB::from_surrounding(a, b), c),
                    AABB::from_surrounding(a, AABB::from_surrounding(b, c))
                );
            }
        }
    }
}

#[test]
fn centroid_key_is_the_sum_of_the_ends() {
    let b = bx((1, -20, 300), (5, -10, 301));
    assert_eq!((b.centroid_key(0), b.centroid_key(1), b.centroid_key(2)), (6, -30, 601));
}

#[test]
fn centroid_key_does_not_overflow() {
    let b = bx((i64::MAX, i64::MIN, 0), (i64::MAX, i64::MIN, 0));
    assert_eq!(b.centroid_key(0), 2 * (i64::MAX as i128));
    assert_eq!(b.centroid_key(1), 2 * (i64::MIN as i128));
}
