use term2d::point::Point;

#[test]
fn it_adds_point_and_point() {
    let a = Point::new(2, 3);
    let b = Point::new(5, 7);
    assert_eq!(a + b, Point::new(7, 10));
}

#[test]
fn it_adds_point_and_ref_point() {
    let a = Point::new(2, 3);
    let b = &Point::new(5, 7);
    assert_eq!(a + b, Point::new(7, 10));
}

#[test]
fn it_adds_ref_point_and_point() {
    let a = &Point::new(2, 3);
    let b = Point::new(5, 7);
    assert_eq!(a + b, Point::new(7, 10));
}

#[test]
fn it_adds_ref_point_and_ref_point() {
    let a = &Point::new(2, 3);
    let b = &Point::new(5, 7);
    assert_eq!(a + b, Point::new(7, 10));
}

#[test]
fn it_adds_three_ref_points() {
    let a = &Point::new(0, 0);
    let b = &Point::new(1, 2);
    let c = &Point::new(1, 2);
    assert_eq!(a + b + c, Point::new(2, 4));
}

#[test]
fn it_addassigns_a_point() {
    let mut a = Point::new(2, 3);
    a += Point::new(5, 7);
    assert_eq!(a, Point::new(7, 10));
}

#[test]
fn it_addassigns_a_ref_point() {
    let mut a = Point::new(2, 3);
    a += &Point::new(5, 7);
    assert_eq!(a, Point::new(7, 10));
}

#[test]
fn it_subs_point_and_point() {
    let a = Point::new(2, 3);
    let b = Point::new(5, 7);
    assert_eq!(a - b, Point::new(-3, -4));
}

#[test]
fn it_subs_point_and_ref_point() {
    let a = Point::new(2, 3);
    let b = &Point::new(5, 7);
    assert_eq!(a - b, Point::new(-3, -4));
}

#[test]
fn it_subs_ref_point_and_point() {
    let a = &Point::new(2, 3);
    let b = Point::new(5, 7);
    assert_eq!(a - b, Point::new(-3, -4));
}

#[test]
fn it_subs_ref_point_and_ref_point() {
    let a = &Point::new(2, 3);
    let b = &Point::new(5, 7);
    assert_eq!(a - b, Point::new(-3, -4));
}

#[test]
fn it_subs_three_ref_points() {
    let a = &Point::new(0, 0);
    let b = &Point::new(1, 2);
    let c = &Point::new(1, 2);
    assert_eq!(a - b - c, Point::new(-2, -4));
}

#[test]
fn it_subassigns_a_point() {
    let mut a = Point::new(2, 3);
    a -= Point::new(5, 7);
    assert_eq!(a, Point::new(-3, -4));
}

#[test]
fn it_subassigns_a_ref_point() {
    let mut a = Point::new(2, 3);
    a -= &Point::new(5, 7);
    assert_eq!(a, Point::new(-3, -4));
}

#[test]
fn point_arithmetic_wraps_at_the_coordinate_range() {
    let a = Point::new(i32::MAX, i32::MIN);
    assert_eq!(a + Point::new(1, 0), Point::new(i32::MIN, i32::MIN));
    assert_eq!(a - Point::new(0, 1), Point::new(i32::MAX, i32::MAX));
}

#[test]
fn point_neighbours_and_half() {
    let p = Point::new(4, -3);
    assert_eq!(p.left(), Point::new(3, -3));
    assert_eq!(p.right(), Point::new(5, -3));
    assert_eq!(p.up(), Point::new(4, -4));
    assert_eq!(p.down(), Point::new(4, -2));
    assert_eq!(p.up_left(), Point::new(3, -4));
    assert_eq!(p.up_right(), Point::new(5, -4));
    assert_eq!(p.down_left(), Point::new(3, -2));
    assert_eq!(p.down_right(), Point::new(5, -2));
    assert_eq!(p.half(), Point::new(2, -1));
    assert_eq!(p.width(), 4);
    assert_eq!(p.height(), -3);
}

#[test]
fn point_containment_in_a_size() {
    let size = Point::new(3, 2);
    assert!(Point::new(0, 0).is_contained(&size));
    assert!(Point::new(2, 1).is_contained(&size));
    assert!(!Point::new(3, 1).is_contained(&size));
    assert!(!Point::new(0, 2).is_contained(&size));
    assert!(!Point::new(-1, 0).is_contained(&size));
}
