use wgpui::{Context, Id, MouseButton, Point, Rect, SizingMode, Style};

fn rect(x0: i64, y0: i64, x1: i64, y1: i64) -> Rect {
    Rect::from_min_max(Point::new(x0, y0), Point::new(x1, y1))
}

fn fixed(w: u32, h: u32) -> Style {
    let mut s = Style::plain();
    s.sizing_x = SizingMode::Fixed(w);
    s.sizing_y = SizingMode::Fixed(h);
    s
}

#[test]
fn press_then_release_is_a_click() {
    let mut ui = Context::new();
    let id = Id(11);
    let r = rect(0, 0, 100, 20);

    ui.mouse.set_mouse_pos(50, 10);
    ui.mouse.set_button_press(MouseButton::Left, true, 0);
    ui.begin_frame();
    let sig = ui.register(id, r);
    assert!(sig.pressed());
    assert!(!sig.clicked());
    assert!(!sig.released());
    assert!(sig.hovering());
    assert!(sig.mouse_over);
    assert_eq!(ui.active_id, id);
    assert_eq!(ui.hot_id, id);
    ui.end_frame().unwrap();
    assert_eq!(ui.active_id, id);

    ui.mouse.set_button_press(MouseButton::Left, false, 40);
    ui.begin_frame();
    let sig = ui.register(id, r);
    assert!(sig.clicked());
    assert!(sig.released());
    assert!(!sig.dragging());
    assert!(!sig.pressed());
    assert!(!sig.double_clicked());
    ui.end_frame().unwrap();
    assert_eq!(ui.active_id, Id::null());

    // nothing happens in the frame after
    ui.begin_frame();
    let sig = ui.register(id, r);
    assert!(!sig.clicked());
    assert!(!sig.pressed());
    assert!(sig.hovering());
    ui.end_frame().unwrap();
}

fn click(ui: &mut Context, id: Id, r: Rect, down_at: u64, up_at: u64) -> wgpui::Signal {
    ui.mouse.set_button_press(MouseButton::Left, true, down_at);
    ui.begin_frame();
    ui.register(id, r);
    ui.end_frame().unwrap();
    ui.mouse.set_button_press(MouseButton::Left, false, up_at);
    ui.begin_frame();
    let sig = ui.register(id, r);
    ui.end_frame().unwrap();
    sig
}

#[test]
fn two_quick_clicks_are_a_double_click() {
    let mut ui = Context::new();
    let id = Id(5);
    let r = rect(0, 0, 100, 20);
    ui.mouse.set_mouse_pos(50, 10);
    let first = click(&mut ui, id, r, 1000, 1040);
    assert!(first.clicked());
    assert!(!first.double_clicked());
    let second = click(&mut ui, id, r, 1100, 1150);
    assert!(second.clicked());
    assert!(second.double_clicked());
}

#[test]
fn two_slow_clicks_are_two_clicks() {
    let mut ui = Context::new();
    let id = Id(5);
    let r = rect(0, 0, 100, 20);
    ui.mouse.set_mouse_pos(50, 10);
    let first = click(&mut ui, id, r, 1000, 1040);
    assert!(first.clicked());
    let second = click(&mut ui, id, r, 1191, 1200);
    assert!(second.clicked());
    assert!(!second.double_clicked());
}

#[test]
fn a_release_without_the_press_is_no_click() {
    let mut ui = Context::new();
    let a = Id(1);
    let b = Id(2);
    let ra = rect(0, 0, 10, 10);
    let rb = rect(20, 0, 30, 10);
    ui.mouse.set_mouse_pos(5, 5);
    ui.mouse.set_button_press(MouseButton::Left, true, 0);
    ui.begin_frame();
    assert!(ui.register(a, ra).pressed());
    assert!(!ui.register(b, rb).pressed());
    ui.end_frame().unwrap();
    ui.mouse.set_mouse_pos(25, 5);
    ui.mouse.set_button_press(MouseButton::Left, false, 500);
    ui.begin_frame();
    let sa = ui.register(a, ra);
    let sb = ui.register(b, rb);
    assert!(!sa.released());
    assert!(!sa.clicked());
    assert!(sb.released());
    assert!(!sb.clicked());
    ui.end_frame().unwrap();
}

#[test]
fn a_drag_goes_on_outside_the_node() {
    let mut ui = Context::new();
    let id = Id(3);
    let other = Id(4);
    let r = rect(0, 0, 10, 10);
    let far = rect(100, 100, 200, 200);
    ui.mouse.set_mouse_pos(5, 5);
    ui.mouse.set_button_press(MouseButton::Left, true, 0);
    ui.begin_frame();
    let sig = ui.register(id, r);
    assert!(sig.pressed());
    assert!(!sig.dragging());
    ui.end_frame().unwrap();

    ui.mouse.set_mouse_pos(150, 150);
    ui.begin_frame();
    let sig = ui.register(id, r);
    assert!(sig.dragging());
    assert!(!sig.pressed());
    assert!(!sig.hovering());
    assert!(!sig.button(MouseButton::Left).double_dragging);
    // the node under the pointer is not hovered while the press is held
    let o = ui.register(other, far);
    assert!(o.mouse_over);
    assert!(!o.hovering());
    assert!(o.pressed());
    assert!(!o.dragging());
    assert_eq!(ui.active_id, id);
    ui.end_frame().unwrap();
}

#[test]
fn the_node_registered_last_is_hot() {
    let mut ui = Context::new();
    ui.mouse.set_mouse_pos(5, 5);
    ui.begin_frame();
    assert_eq!(ui.hot_id, Id::null());
    assert!(ui.register(Id(1), rect(0, 0, 10, 10)).hovering());
    assert_eq!(ui.hot_id, Id(1));
    assert!(ui.register(Id(2), rect(0, 0, 10, 10)).hovering());
    assert_eq!(ui.hot_id, Id(2));
    assert!(!ui.register(Id(3), rect(50, 50, 60, 60)).hovering());
    assert_eq!(ui.hot_id, Id(2));
    ui.end_frame().unwrap();
}

#[test]
fn the_reserved_id_gets_no_signal() {
    let mut ui = Context::new();
    ui.mouse.set_mouse_pos(5, 5);
    ui.mouse.set_button_press(MouseButton::Left, true, 0);
    ui.begin_frame();
    let sig = ui.register(Id::null(), rect(0, 0, 10, 10));
    assert!(!sig.pressed());
    assert!(!sig.hovering());
    assert!(!sig.mouse_over);
    assert_eq!(ui.active_id, Id::null());
    assert_eq!(ui.hot_id, Id::null());
    ui.end_frame().unwrap();
}

#[test]
fn interaction_goes_by_the_layout_of_the_frame_before() {
    let mut ui = Context::new();
    ui.begin_frame();
    let id = ui.begin("box", fixed(100, 20));
    ui.end().unwrap();
    ui.end_frame().unwrap();

    ui.mouse.set_mouse_pos(50, 10);
    ui.begin_frame();
    // the rectangle handed in is ignored: the store knows the node
    let sig = ui.register(id, rect(500, 500, 600, 600));
    assert!(sig.hovering());
    let mut moved = fixed(100, 20);
    moved.fixed_pos = Some(Point::new(1000, 1000));
    ui.begin("box", moved);
    ui.end().unwrap();
    ui.end_frame().unwrap();

    ui.begin_frame();
    assert!(!ui.register(id, rect(0, 0, 100, 20)).hovering());
    ui.mouse.set_mouse_pos(1001, 1001);
    ui.end_frame().unwrap();
    ui.begin_frame();
    assert!(!ui.register_item(Id(999)).hovering());
    ui.end_frame().unwrap();
}

#[test]
fn the_right_button_has_signals_of_its_own() {
    let mut ui = Context::new();
    let id = Id(8);
    let r = rect(0, 0, 10, 10);
    ui.mouse.set_mouse_pos(1, 1);
    ui.mouse.set_button_press(MouseButton::Right, true, 0);
    ui.begin_frame();
    let sig = ui.register(id, r);
    assert!(!sig.pressed());
    assert!(sig.button(MouseButton::Right).pressed);
    assert!(!sig.button(MouseButton::Middle).pressed);
    ui.end_frame().unwrap();
    ui.mouse.set_button_press(MouseButton::Right, false, 10);
    ui.begin_frame();
    let sig = ui.register(id, r);
    assert!(sig.button(MouseButton::Right).clicked);
    assert!(!sig.clicked());
    ui.end_frame().unwrap();
}
