use cursive::align::{Align, HAlign, VAlign};
use cursive::div::div_up_usize;
use cursive::vec::{ToVec2, Vec2};

#[test]
fn vec2_min_and_max_go_by_component() {
    let a = Vec2::new(3, 8);
    let b = Vec2::new(5, 2);
    assert_eq!(Vec2::min(a, b), Vec2::new(3, 2));
    assert_eq!(Vec2::max(a, b), Vec2::new(5, 8));
    assert_eq!(Vec2::zero(), Vec2::new(0, 0));
}

#[test]
fn vec2_minus_stops_at_zero() {
    assert_eq!(Vec2::new(10, 10).minus(Vec2::new(3, 4)), Vec2::new(7, 6));
    assert_eq!(Vec2::new(2, 10).minus(Vec2::new(3, 4)), Vec2::new(0, 6));
}

#[test]
fn vec2_plus_stops_at_the_largest_number() {
    assert_eq!(Vec2::new(1, 2).plus(Vec2::new(3, 4)), Vec2::new(4, 6));
    assert_eq!(Vec2::new(usize::MAX, 2).plus(Vec2::new(3, 4)), Vec2::new(usize::MAX, 6));
}

#[test]
fn vec2_half_rounds_down() {
    assert_eq!(Vec2::new(6, 8).half(), Vec2::new(3, 4));
    assert_eq!(Vec2::new(7, 1).half(), Vec2::new(3, 0));
}

#[test]
fn pairs_are_read_as_vec2() {
    assert_eq!((3usize, 4usize).to_vec2(), Vec2::new(3, 4));
    assert_eq!(Vec2::new(3, 4).to_vec2(), Vec2::new(3, 4));
}

#[test]
fn div_up_rounds_up() {
    assert_eq!(div_up_usize(15, 3), 5);
    assert_eq!(div_up_usize(15, 2), 8);
    assert_eq!(div_up_usize(0, 4), 0);
    assert_eq!(div_up_usize(1, 4), 1);
    assert_eq!(div_up_usize(usize::MAX, 1), usize::MAX);
    assert_eq!(div_up_usize(usize::MAX, 2), usize::MAX / 2 + 1);
}

#[test]
fn alignment_offsets() {
    assert_eq!(HAlign::Left.get_offset(4, 10), 0);
    assert_eq!(HAlign::Center.get_offset(4, 10), 3);
    assert_eq!(HAlign::Right.get_offset(4, 10), 6);
    assert_eq!(HAlign::Center.get_offset(5, 10), 2);
    assert_eq!(VAlign::Top.get_offset(2, 10), 0);
    assert_eq!(VAlign::Center.get_offset(2, 10), 4);
    assert_eq!(VAlign::Bottom.get_offset(2, 10), 8);
}

#[test]
fn alignment_of_too_large_content_is_zero() {
    assert_eq!(HAlign::Center.get_offset(12, 10), 0);
    assert_eq!(HAlign::Right.get_offset(12, 10), 0);
    assert_eq!(VAlign::Bottom.get_offset(12, 10), 0);
}

#[test]
fn align_builders() {
    assert_eq!(Align::top_left(), Align::new(HAlign::Left, VAlign::Top));
    assert_eq!(Align::center(), Align { h: HAlign::Center, v: VAlign::Center });
}
