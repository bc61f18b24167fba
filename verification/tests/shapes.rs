use dwarfilib::shapes::{Point, Rect};

#[test]
fn point_diff_works_correctly() {
    let point1 = Point { x: 5, y: 7 };
    let point2 = Point { x: -3, y: 10 };
    let diff = point1.diff(point2);
    assert_eq!(Point { x: -8, y: 3 }, diff);
}

#[test]
fn rect_rotates_correctly() {
    let rect1 = Rect { x: 2, y: 3, w: 5, h: 7 };
    let rect2 = rect1.rotate();
    assert_eq!(7, rect2.w);
    assert_eq!(5, rect2.h);
    assert_eq!(2, rect2.x);
    assert_eq!(3, rect2.y);
}

#[test]
fn rect_copy_testing() {
    let rect1 = Rect { x: 2, y: 3, w: 5, h: 7 };
    let rect2 = rect1.rotate();
    let mut rect3 = rect2;
    rect3.x = 0;
    assert_eq!(0, rect3.x);
    assert_eq!(2, rect2.x);
}

#[test]
fn rect_collisions_work() {
    let rect1 = Rect { x: 2, y: 3, w: 5, h: 7 };
    let mut rect2 = rect1.rotate();
    assert!(rect1.collides_with(rect2));
    rect2.x = 7;
    assert!(!rect1.collides_with(rect2));
    rect2.x = -2;
    assert!(rect1.collides_with(rect2));
    rect2.y = -4;
    assert!(!rect1.collides_with(rect2));
}

#[test]
fn rect_area_calculation_works() {
    let rect1 = Rect { x: 666, y: -1337, w: 42, h: 42 };
    assert_eq!(1764, rect1.area());
}

#[test]
fn rect_top_left_center_bottom_right_work() {
    let rect1 = Rect { x: 666, y: -1337, w: 42, h: 42 };
    assert_eq!(Point { x: 666, y: -1337 }, rect1.top_left());
    assert_eq!(Point { x: 687, y: -1316 }, rect1.center());
    assert_eq!(Point { x: 708, y: -1295 }, rect1.bottom_right());
}

#[test]
fn collision_semantics_edge_touch() {
    let left = Rect { x: 0, y: 0, w: 2, h: 2 };
    let right = Rect { x: 2, y: 0, w: 2, h: 2 };
    assert!(!left.collides_with(right));
    assert!(!right.collides_with(left));
    let shifted = Rect { x: 1, y: 0, w: 2, h: 2 };
    assert!(left.collides_with(shifted));
    assert!(shifted.collides_with(left));
}

#[test]
fn set_center_moves_rect() {
    let mut rect = Rect { x: 0, y: 0, w: 4, h: 4 };
    rect.set_center(10, 10);
    assert_eq!(8, rect.x);
    assert_eq!(8, rect.y);
    assert_eq!(Point { x: 10, y: 10 }, rect.center());
}

#[test]
fn origo_cmp_orders_by_distance() {
    let near = Rect { x: 0, y: 0, w: 2, h: 2 };
    let far = Rect { x: 5, y: 5, w: 2, h: 2 };
    assert_eq!(core::cmp::Ordering::Less, near.origo_cmp(&far));
    assert_eq!(core::cmp::Ordering::Greater, far.origo_cmp(&near));
    assert_eq!(core::cmp::Ordering::Equal, near.origo_cmp(&near));
}
