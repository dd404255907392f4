use cosmic_comp::geometry::{saturating_add, saturating_sub, Point, Rect, Size, WindowSize};

fn rect(x: i32, y: i32, w: i32, h: i32) -> Rect {
    Rect { loc: Point { x, y }, size: Size { w, h } }
}

#[test]
fn sums_stop_at_the_ends_of_the_range() {
    assert_eq!(saturating_add(1, 2), 3);
    assert_eq!(saturating_add(i32::MAX, 1), i32::MAX);
    assert_eq!(saturating_add(i32::MIN, -1), i32::MIN);
    assert_eq!(saturating_sub(1, 2), -1);
    assert_eq!(saturating_sub(i32::MIN, 1), i32::MIN);
    assert_eq!(saturating_sub(i32::MAX, -1), i32::MAX);
    assert_eq!(saturating_sub(0, i32::MIN), i32::MAX);
}

#[test]
fn points_move_and_are_seen_from_an_origin() {
    let p = Point { x: 10, y: -4 };
    assert_eq!(p.offset(Point { x: 5, y: 5 }), Point { x: 15, y: 1 });
    assert_eq!(p.relative_to(Point { x: 5, y: 5 }), Point { x: 5, y: -9 });
    assert_eq!(
        Point { x: i32::MAX, y: i32::MIN }.offset(Point { x: 1, y: -1 }),
        Point { x: i32::MAX, y: i32::MIN }
    );
}

#[test]
fn the_far_edges_of_a_rectangle_are_outside() {
    let r = rect(10, 20, 30, 40);
    assert!(r.contains(Point { x: 10, y: 20 }));
    assert!(r.contains(Point { x: 39, y: 59 }));
    assert!(!r.contains(Point { x: 40, y: 59 }));
    assert!(!r.contains(Point { x: 39, y: 60 }));
    assert!(!r.contains(Point { x: 9, y: 20 }));
    assert!(!rect(0, 0, 0, 10).contains(Point { x: 0, y: 0 }));
}

#[test]
fn touching_rectangles_do_not_overlap() {
    let a = rect(0, 0, 10, 10);
    assert!(a.overlaps(rect(9, 9, 10, 10)));
    assert!(!a.overlaps(rect(10, 0, 10, 10)));
    assert!(!a.overlaps(rect(0, 10, 10, 10)));
    assert_eq!(a.intersection(rect(10, 0, 10, 10)), None);
}

#[test]
fn the_intersection_is_the_shared_area() {
    let a = rect(0, 0, 100, 50);
    let b = rect(60, 20, 100, 100);
    assert_eq!(a.intersection(b), Some(rect(60, 20, 40, 30)));
    assert_eq!(b.intersection(a), Some(rect(60, 20, 40, 30)));
    assert_eq!(a.intersection(a), Some(a));
    assert_eq!(a.intersection(rect(10, 10, 5, 5)), Some(rect(10, 10, 5, 5)));
    assert_eq!(rect(-20, -20, 30, 30).intersection(rect(0, 0, 5, 50)), Some(rect(0, 0, 5, 10)));
}

#[test]
fn edges_past_the_range_stop_at_its_end() {
    let a = rect(i32::MAX - 10, 0, 100, 10);
    let b = rect(i32::MAX - 5, 0, 100, 10);
    assert_eq!(a.intersection(b), Some(rect(i32::MAX - 5, 0, 5, 10)));
}

#[test]
fn area_is_taken_in_64_bits() {
    assert_eq!(rect(0, 0, 3, 4).area(), 12);
    assert_eq!(rect(0, 0, 65536, 65536).area(), 4_294_967_296);
    assert_eq!(rect(0, 0, i32::MAX, i32::MAX).area(), 4_611_686_014_132_420_609);
    assert_eq!(rect(0, 0, -2, 3).area(), -6);
}

#[test]
fn a_window_size_is_a_pixel_size() {
    assert_eq!(WindowSize { w: 800, h: 600 }.to_size(), Size { w: 800, h: 600 });
    assert_eq!(WindowSize { w: u16::MAX, h: 0 }.to_size(), Size { w: 65535, h: 0 });
}
