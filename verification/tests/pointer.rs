use wgpui::geom::{sat_add, sat_sub};
use wgpui::input_recorder::{elapsed, is_further_than};
use wgpui::{MouseButton, MouseState, PerButton, Point, Rect, Size};

#[test]
fn rect_contains_is_half_open() {
    let r = Rect::from_min_max(Point::new(0, 0), Point::new(100, 20));
    assert!(r.contains(Point::new(0, 0)));
    assert!(r.contains(Point::new(50, 10)));
    assert!(r.contains(Point::new(99, 19)));
    assert!(!r.contains(Point::new(100, 10)));
    assert!(!r.contains(Point::new(50, 20)));
    assert!(!r.contains(Point::new(-1, 10)));
    assert_eq!(r.width(), 100);
    assert_eq!(r.height(), 20);
    assert!(!r.is_empty());
}

#[test]
fn a_rect_without_area_holds_nothing() {
    let r = Rect::from_min_size(Point::new(5, 5), Size::new(0, 10));
    assert!(r.is_empty());
    assert!(!r.contains(Point::new(5, 5)));
}

#[test]
fn coordinates_saturate() {
    assert_eq!(sat_add(i64::MAX, 1), i64::MAX);
    assert_eq!(sat_add(i64::MIN, -1), i64::MIN);
    assert_eq!(sat_add(3, 4), 7);
    assert_eq!(sat_sub(i64::MIN, 1), i64::MIN);
    assert_eq!(sat_sub(i64::MAX, -1), i64::MAX);
    assert_eq!(sat_sub(3, 4), -1);
    let r = Rect::from_min_size(Point::new(i64::MAX - 1, 0), Size::new(10, 10));
    assert_eq!(r.max.x, i64::MAX);
    let wide = Rect::from_min_max(Point::new(i64::MIN, 0), Point::new(i64::MAX, 1));
    assert_eq!(wide.width(), i64::MAX);
}

#[test]
fn per_button_keeps_one_value_each() {
    let mut p = PerButton::splat(0u8);
    p.set(MouseButton::Right, 7);
    assert_eq!(p.get(MouseButton::Left), 0);
    assert_eq!(p.get(MouseButton::Right), 7);
    assert_eq!(p.get(MouseButton::Middle), 0);
    assert_eq!(MouseButton::Left.index(), 0);
    assert_eq!(MouseButton::Right.index(), 1);
    assert_eq!(MouseButton::Middle.index(), 2);
}

#[test]
fn distance_is_straight_line() {
    let o = Point::new(0, 0);
    assert!(!is_further_than(Point::new(3, 4), o, 5));
    assert!(is_further_than(Point::new(3, 5), o, 5));
    assert!(is_further_than(Point::new(6, 0), o, 5));
    assert!(!is_further_than(Point::new(-5, 0), o, 5));
    assert!(is_further_than(Point::new(i64::MAX, i64::MAX), Point::new(i64::MIN, i64::MIN), u32::MAX));
    assert!(!is_further_than(o, o, 0));
    assert_eq!(elapsed(10, 4), 6);
    assert_eq!(elapsed(4, 10), 0);
}

#[test]
fn a_press_becomes_a_drag_beyond_the_threshold() {
    let mut m = MouseState::new();
    m.set_mouse_pos(10, 10);
    m.set_button_press(MouseButton::Left, true, 0);
    assert!(m.pressed(MouseButton::Left));
    assert!(!m.dragging(MouseButton::Left));
    assert_eq!(m.drag_start(MouseButton::Left), Point::new(10, 10));
    m.set_mouse_pos(13, 14);
    assert!(!m.dragging(MouseButton::Left));
    m.set_mouse_pos(13, 15);
    assert!(m.dragging(MouseButton::Left));
    assert!(!m.dragging(MouseButton::Right));
    assert_eq!(m.drag_delta(), Point::new(0, 1));
    // a drag stays a drag when the pointer comes back
    m.set_mouse_pos(10, 10);
    assert!(m.dragging(MouseButton::Left));
    m.set_button_press(MouseButton::Left, false, 400);
    assert!(!m.dragging(MouseButton::Left));
    assert!(!m.pressed(MouseButton::Left));
}

#[test]
fn a_second_short_press_within_the_window_is_a_double_press() {
    let mut m = MouseState::new();
    m.set_button_press(MouseButton::Left, true, 1000);
    assert!(!m.double_clicked(MouseButton::Left));
    m.set_button_press(MouseButton::Left, false, 1050);
    m.set_button_press(MouseButton::Left, true, 1200);
    assert!(m.double_clicked(MouseButton::Left));
    m.set_button_press(MouseButton::Left, false, 1260);
    assert!(m.double_released(MouseButton::Left));
    assert!(!m.double_clicked(MouseButton::Left));
}

#[test]
fn a_second_press_after_the_window_is_a_single_press() {
    let mut m = MouseState::new();
    m.set_button_press(MouseButton::Left, true, 1000);
    m.set_button_press(MouseButton::Left, false, 1050);
    m.set_button_press(MouseButton::Left, true, 1201);
    assert!(!m.double_clicked(MouseButton::Left));
    m.set_button_press(MouseButton::Left, false, 1260);
    assert!(!m.double_released(MouseButton::Left));
}

#[test]
fn a_slow_first_press_blocks_the_double_press() {
    let mut m = MouseState::new();
    m.set_button_press(MouseButton::Left, true, 0);
    m.set_button_press(MouseButton::Left, false, 151);
    m.set_button_press(MouseButton::Left, true, 200);
    assert!(!m.double_clicked(MouseButton::Left));
    // exactly the window still counts as short
    let mut m = MouseState::new();
    m.set_button_press(MouseButton::Left, true, 0);
    m.set_button_press(MouseButton::Left, false, 150);
    m.set_button_press(MouseButton::Left, true, 300);
    assert!(m.double_clicked(MouseButton::Left));
    // a slow second press is no double click at its end
    m.set_button_press(MouseButton::Left, false, 451);
    assert!(!m.double_released(MouseButton::Left));
}

#[test]
fn repeated_reports_change_nothing() {
    let mut m = MouseState::new();
    m.set_mouse_pos(1, 2);
    m.set_button_press(MouseButton::Middle, true, 10);
    let snapshot = m;
    m.set_button_press(MouseButton::Middle, true, 500);
    assert!(m == snapshot);
    m.set_button_press(MouseButton::Left, false, 500);
    assert!(m == snapshot);
}

#[test]
fn just_pressed_lasts_sixteen_milliseconds() {
    let mut m = MouseState::new();
    m.set_button_press(MouseButton::Left, true, 100);
    assert!(m.just_pressed(MouseButton::Left, 100));
    assert!(m.just_pressed(MouseButton::Left, 115));
    assert!(!m.just_pressed(MouseButton::Left, 116));
    assert!(!m.just_pressed(MouseButton::Right, 100));
    m.set_button_press(MouseButton::Left, false, 110);
    assert!(!m.just_pressed(MouseButton::Left, 110));
}

#[test]
fn the_default_pointer_is_a_fresh_one() {
    let m = MouseState::default();
    assert!(m == MouseState::new());
    assert_eq!(m.mouse_pos, Point::new(0, 0));
    assert_eq!(m.double_click_time, 150);
    assert_eq!(m.drag_threshold, 5);
    assert!(!m.pressed(MouseButton::Left));
    assert_eq!(m.buttons.get(MouseButton::Right), wgpui::ButtonState::idle());
}
