use std::cmp::Ordering;

use odb_poly_decomp::point::{Point, Side};
use odb_poly_decomp::rect::Rect;

#[test]
fn scan_order_is_y_first_then_x() {
    let a = Point::new(5, 0);
    let b = Point::new(0, 1);
    let c = Point::new(1, 1);
    assert!(a < b);
    assert!(b < c);
    assert!(a < c);
    assert_eq!(c.partial_cmp(&b), Some(Ordering::Greater));
    assert_eq!(b.partial_cmp(&b), Some(Ordering::Equal));
    assert!(a.precedes(&b));
    assert!(!b.precedes(&a));
}

#[test]
fn scan_order_is_total_on_samples() {
    let pts = [
        Point::new(0, 0),
        Point::new(1, 0),
        Point::new(0, 1),
        Point::new(-3, 1),
        Point::new(2, -4),
        Point::new(2, -4),
    ];
    for p in pts.iter() {
        for q in pts.iter() {
            let lt = p < q;
            let eq = p == q;
            let gt = p > q;
            assert_eq!([lt, eq, gt].iter().filter(|b| **b).count(), 1);
            assert_eq!(lt, p.y < q.y || (p.y == q.y && p.x < q.x));
        }
    }
}

#[test]
fn which_side_follows_the_rise() {
    let p = Point::new(3, 1);
    assert_eq!(p.which_side(&Point::new(3, 4)), Some(Side::Left));
    assert_eq!(p.which_side(&Point::new(3, -2)), Some(Side::Right));
    assert_eq!(p.which_side(&Point::new(7, 1)), None);
}

#[test]
fn rect_keeps_its_corners() {
    let r = Rect::new(Point::new(0, 0), Point::new(2, 1));
    assert_eq!(r.left(), Point::new(0, 0));
    assert_eq!(r.right(), Point::new(2, 1));
    assert_eq!(r, Rect { left: Point::new(0, 0), right: Point::new(2, 1) });
}
