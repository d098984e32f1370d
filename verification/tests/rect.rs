use roguemap::Rect;

#[test]
fn new_adds_width_and_height_to_the_origin() {
    let r = Rect::new(3, 4, 5, 6);
    assert_eq!(r.x1, 3);
    assert_eq!(r.y1, 4);
    assert_eq!(r.x2, 8);
    assert_eq!(r.y2, 10);
}

#[test]
fn a_rect_of_positive_size_has_ordered_corners() {
    let r = Rect::new(-7, -2, 1, 1);
    assert!(r.x1 <= r.x2);
    assert!(r.y1 <= r.y2);
}

#[test]
fn overlapping_rects_intersect() {
    let a = Rect::new(0, 0, 10, 10);
    let b = Rect::new(5, 5, 10, 10);
    assert!(a.intersect(&b));
    assert!(b.intersect(&a));
}

#[test]
fn rects_that_share_an_edge_intersect() {
    let a = Rect::new(0, 0, 5, 5);
    let b = Rect::new(5, 0, 5, 5);
    assert!(a.intersect(&b));
    let c = Rect::new(0, 5, 5, 5);
    assert!(a.intersect(&c));
    let corner = Rect::new(5, 5, 5, 5);
    assert!(a.intersect(&corner));
}

#[test]
fn rects_one_cell_apart_do_not_intersect() {
    let a = Rect::new(0, 0, 5, 5);
    let right = Rect::new(6, 0, 5, 5);
    let below = Rect::new(0, 6, 5, 5);
    assert!(!a.intersect(&right));
    assert!(!right.intersect(&a));
    assert!(!a.intersect(&below));
    assert!(!below.intersect(&a));
}

#[test]
fn a_rect_intersects_itself_and_what_it_contains() {
    let a = Rect::new(0, 0, 10, 10);
    let inner = Rect::new(3, 3, 2, 2);
    assert!(a.intersect(&a));
    assert!(a.intersect(&inner));
    assert!(inner.intersect(&a));
}

#[test]
fn center_is_the_midpoint() {
    let r = Rect { x1: 10, y1: 10, x2: 18, y2: 18 };
    assert_eq!(r.center(), (14, 14));
    let r = Rect::new(30, 6, 8, 8);
    assert_eq!(r.center(), (34, 10));
}

#[test]
fn center_truncates_odd_sums() {
    let r = Rect { x1: 0, y1: 0, x2: 5, y2: 7 };
    assert_eq!(r.center(), (2, 3));
}

#[test]
fn center_rounds_toward_zero_below_zero() {
    let r = Rect { x1: -3, y1: -8, x2: 0, y2: 1 };
    assert_eq!(r.center(), (-1, -3));
}

#[test]
fn center_does_not_overflow_at_the_limits() {
    let r = Rect { x1: i32::MAX - 1, y1: i32::MIN, x2: i32::MAX, y2: i32::MIN + 2 };
    assert_eq!(r.center(), (i32::MAX - 1, i32::MIN + 1));
}
