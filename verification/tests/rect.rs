use tilephys::rect::{floor_div_i64, IntRect};

#[test]
fn new_keeps_the_four_fields() {
    let r = IntRect::new(-3, 7, 24, 16);
    assert_eq!(r.x, -3);
    assert_eq!(r.y, 7);
    assert_eq!(r.w, 24);
    assert_eq!(r.h, 16);
    assert_eq!(r, IntRect { x: -3, y: 7, w: 24, h: 16 });
}

#[test]
fn touching_edges_do_not_intersect() {
    let a = IntRect::new(0, 0, 10, 10);
    let right = IntRect::new(10, 0, 10, 10);
    let below = IntRect::new(0, 10, 10, 10);
    let corner = IntRect::new(10, 10, 10, 10);
    assert!(!a.intersects(&right));
    assert!(!right.intersects(&a));
    assert!(!a.intersects(&below));
    assert!(!below.intersects(&a));
    assert!(!a.intersects(&corner));
}

#[test]
fn one_unit_of_overlap_intersects() {
    let a = IntRect::new(0, 0, 10, 10);
    let c = IntRect::new(9, 9, 10, 10);
    assert!(a.intersects(&c));
    assert!(c.intersects(&a));
    let inside = IntRect::new(3, 3, 2, 2);
    assert!(a.intersects(&inside));
    assert!(inside.intersects(&a));
}

#[test]
fn overlap_on_one_axis_only_does_not_intersect() {
    let a = IntRect::new(0, 0, 10, 10);
    let far_right = IntRect::new(20, 2, 5, 5);
    let far_below = IntRect::new(2, 20, 5, 5);
    assert!(!a.intersects(&far_right));
    assert!(!a.intersects(&far_below));
}

#[test]
fn intersects_is_symmetric_on_a_sweep() {
    let a = IntRect::new(-4, -4, 8, 8);
    for x in -14..14 {
        for y in -14..14 {
            let b = IntRect::new(x, y, 5, 3);
            assert_eq!(a.intersects(&b), b.intersects(&a));
            let expect = x < 4 && x + 5 > -4 && y < 4 && y + 3 > -4;
            assert_eq!(a.intersects(&b), expect);
        }
    }
}

#[test]
fn intersects_does_not_overflow_at_the_limits() {
    let a = IntRect::new(i32::MAX - 1, i32::MAX - 1, i32::MAX, i32::MAX);
    let b = IntRect::new(i32::MAX, i32::MAX, 1, 1);
    assert!(a.intersects(&b));
    let c = IntRect::new(i32::MIN, i32::MIN, 1, 1);
    assert!(!a.intersects(&c));
}

#[test]
fn a_rectangle_without_area_does_not_intersect_itself() {
    let flat = IntRect::new(5, 5, 0, 10);
    assert!(!flat.intersects(&flat));
    let solid = IntRect::new(5, 5, 1, 1);
    assert!(solid.intersects(&solid));
}

#[test]
fn center_int_halves_with_integer_division() {
    assert_eq!(IntRect::new(10, 20, 24, 16).center_int(), (22, 28));
    assert_eq!(IntRect::new(10, 20, 25, 17).center_int(), (22, 28));
    assert_eq!(IntRect::new(-10, -20, 5, 1).center_int(), (-8, -20));
    assert_eq!(IntRect::new(0, 0, 0, 0).center_int(), (0, 0));
}

#[test]
fn center_int_floors_a_negative_extent() {
    assert_eq!(IntRect::new(0, 0, -3, -4).center_int(), (-2, -2));
    assert_eq!(IntRect::new(0, 0, -1, -2).center_int(), (-1, -1));
}

#[test]
fn center_wide_never_overflows() {
    let r = IntRect::new(i32::MAX, i32::MAX, i32::MAX, i32::MAX);
    assert_eq!(r.center_x_wide(), i32::MAX as i64 + (i32::MAX / 2) as i64);
    assert_eq!(r.center_y_wide(), i32::MAX as i64 + (i32::MAX / 2) as i64);
    assert_eq!(r.checked_center_int(), None);
    let low = IntRect::new(i32::MIN, 0, -2, 2);
    assert_eq!(low.center_x_wide(), i32::MIN as i64 - 1);
    assert_eq!(low.checked_center_int(), None);
}

#[test]
fn checked_center_int_agrees_where_it_fits() {
    let r = IntRect::new(100, 200, 24, 16);
    assert_eq!(r.checked_center_int(), Some((112, 208)));
    let edge = IntRect::new(i32::MAX - 1, 0, 2, 0);
    assert_eq!(edge.checked_center_int(), Some((i32::MAX, 0)));
}

#[test]
fn floor_div_rounds_down() {
    assert_eq!(floor_div_i64(7, 2), 3);
    assert_eq!(floor_div_i64(-7, 2), -4);
    assert_eq!(floor_div_i64(-8, 2), -4);
    assert_eq!(floor_div_i64(-1, 128), -1);
    assert_eq!(floor_div_i64(-128, 128), -1);
    assert_eq!(floor_div_i64(-129, 128), -2);
    assert_eq!(floor_div_i64(0, 128), 0);
    assert_eq!(floor_div_i64(127, 128), 0);
    assert_eq!(floor_div_i64(128, 128), 1);
    assert_eq!(floor_div_i64(i64::MIN + 1, 1), i64::MIN + 1);
}

#[test]
fn checked_new_turns_down_a_rectangle_without_area() {
    assert_eq!(IntRect::checked_new(1, 2, 3, 4), Some(IntRect::new(1, 2, 3, 4)));
    assert_eq!(IntRect::checked_new(1, 2, 0, 4), None);
    assert_eq!(IntRect::checked_new(1, 2, 3, 0), None);
    assert_eq!(IntRect::checked_new(1, 2, -3, 4), None);
    assert_eq!(IntRect::checked_new(1, 2, 3, -4), None);
    assert_eq!(IntRect::checked_new(i32::MIN, i32::MAX, 1, 1), Some(IntRect::new(i32::MIN, i32::MAX, 1, 1)));
}
