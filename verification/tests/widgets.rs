use wgpui::ui_items::{add_len, centre_pad, len_of, scale_len};
use wgpui::{Axis, Context, MouseButton, Point, SizingMode, Style, RGBA};

fn panel() -> Style {
    let mut s = Style::plain();
    s.sizing_x = SizingMode::Fixed(200);
    s.sizing_y = SizingMode::Fixed(100);
    s.axis = Axis::Y;
    s
}

fn button_frame(ui: &mut Context) -> bool {
    ui.begin_frame();
    ui.begin("panel", panel());
    let hit = ui.button("ok", 30, 16);
    ui.end().unwrap();
    ui.end_frame().unwrap();
    hit
}

#[test]
fn lengths_are_held_in_range() {
    assert_eq!(add_len(3, 4), 7);
    assert_eq!(add_len(u32::MAX, 1), u32::MAX);
    assert_eq!(scale_len(24, 9, 5), 43);
    assert_eq!(scale_len(24, 15, 100), 3);
    assert_eq!(scale_len(u32::MAX, 9, 5), u32::MAX);
    assert_eq!(centre_pad(24, 16), 4);
    assert_eq!(centre_pad(24, 17), 3);
    assert_eq!(centre_pad(10, 16), 0);
    assert_eq!(len_of(-3), 0);
    assert_eq!(len_of(77), 77);
    assert_eq!(len_of(i64::MAX), u32::MAX);
}

#[test]
fn a_button_is_triggered_by_a_click_that_began_on_it() {
    let mut ui = Context::new();
    assert!(!button_frame(&mut ui));
    let id = ui.gen_id("ok");
    let node = ui.store.lookup(id).unwrap();
    assert_eq!((node.size.w, node.size.h), (38, 24));
    assert_eq!(node.style.fill, Some(ui.theme.btn_default));

    ui.mouse.set_mouse_pos(10, 10);
    assert!(!button_frame(&mut ui));
    assert_eq!(ui.store.lookup(id).unwrap().style.fill, Some(ui.theme.btn_hover));
    ui.mouse.set_button_press(MouseButton::Left, true, 0);
    assert!(!button_frame(&mut ui));
    assert_eq!(ui.store.lookup(id).unwrap().style.fill, Some(ui.theme.btn_press));
    ui.mouse.set_button_press(MouseButton::Left, false, 30);
    assert!(button_frame(&mut ui));
    assert!(!button_frame(&mut ui));
    assert_eq!(ui.finish().len(), 1);
}

#[test]
fn a_press_that_began_outside_does_not_trigger_the_button() {
    let mut ui = Context::new();
    assert!(!button_frame(&mut ui));
    ui.mouse.set_mouse_pos(150, 80);
    ui.mouse.set_button_press(MouseButton::Left, true, 0);
    assert!(!button_frame(&mut ui));
    ui.mouse.set_mouse_pos(10, 10);
    assert!(!button_frame(&mut ui));
    let id = ui.gen_id("ok");
    // pressed over it, but not with a press of its own: it only hovers
    assert_eq!(ui.store.lookup(id).unwrap().style.fill, Some(ui.theme.btn_hover));
    ui.mouse.set_button_press(MouseButton::Left, false, 30);
    assert!(!button_frame(&mut ui));
}

fn checkbox_frame(ui: &mut Context, value: &mut bool) -> bool {
    ui.begin_frame();
    ui.begin("panel", panel());
    let r = ui.checkbox("wrap", value, 40, 16);
    ui.end().unwrap();
    ui.end_frame().unwrap();
    r
}

#[test]
fn a_checkbox_flips_when_the_button_goes_up_over_it() {
    let mut ui = Context::new();
    let mut value = false;
    assert!(!checkbox_frame(&mut ui, &mut value));
    assert_eq!(ui.nodes.len(), 4);
    let id = ui.gen_id("wrap");
    let node = ui.store.lookup(id).unwrap();
    assert_eq!((node.size.w, node.size.h), (30, 30));
    assert_eq!(node.style.padding.left, 3);
    ui.mouse.set_mouse_pos(5, 5);
    ui.mouse.set_button_press(MouseButton::Left, true, 0);
    assert!(!checkbox_frame(&mut ui, &mut value));
    ui.mouse.set_button_press(MouseButton::Left, false, 10);
    assert!(checkbox_frame(&mut ui, &mut value));
    assert!(value);
    // the mark fills the box inside its padding
    assert_eq!(ui.nodes.len(), 5);
    let mark = ui.nodes[3];
    assert_eq!(mark.parent, Some(2));
    assert_eq!((mark.size.w, mark.size.h), (24, 24));
    assert_eq!(mark.pos, Point::new(3, 3));
    assert!(checkbox_frame(&mut ui, &mut value));
    ui.mouse.set_button_press(MouseButton::Left, true, 100);
    checkbox_frame(&mut ui, &mut value);
    ui.mouse.set_button_press(MouseButton::Left, false, 110);
    assert!(!checkbox_frame(&mut ui, &mut value));
    assert!(!value);
}

fn intern_frame(ui: &mut Context) -> (bool, bool, bool) {
    ui.begin_frame();
    ui.begin("panel", panel());
    let a = ui.checkbox_intern("check", 40, 16);
    let b = ui.switch_intern("switch", 40, 16);
    let c = ui.collapsing_header_intern("more", 40, 16);
    ui.end().unwrap();
    ui.end_frame().unwrap();
    (a, b, c)
}

fn click_at(ui: &mut Context, x: i64, y: i64, t: u64) -> (bool, bool, bool) {
    ui.mouse.set_mouse_pos(x, y);
    ui.mouse.set_button_press(MouseButton::Left, true, t);
    intern_frame(ui);
    ui.mouse.set_button_press(MouseButton::Left, false, t + 10);
    intern_frame(ui)
}

#[test]
fn the_session_keeps_the_values_of_its_widgets() {
    let mut ui = Context::new();
    assert_eq!(intern_frame(&mut ui), (false, false, false));
    // the rows stand below each other: 30 the checkbox, 24 the switch
    let rail = ui.store.lookup(ui.gen_id("switch")).unwrap();
    assert_eq!(rail.pos, Point::new(0, 30));
    assert_eq!((rail.size.w, rail.size.h), (43 + 4, 24 + 4));
    let header = ui.store.lookup(ui.gen_id("more")).unwrap();
    assert_eq!(header.pos, Point::new(0, 58));
    assert_eq!((header.size.w, header.size.h), (200, 24));

    assert_eq!(click_at(&mut ui, 5, 5, 0), (true, false, false));
    assert_eq!(intern_frame(&mut ui), (true, false, false));
    assert_eq!(click_at(&mut ui, 5, 35, 1000), (true, true, false));
    assert_eq!(click_at(&mut ui, 100, 70, 2000), (true, true, true));
    assert_eq!(click_at(&mut ui, 5, 5, 3000), (false, true, true));
    assert_eq!(intern_frame(&mut ui), (false, true, true));
    assert_eq!(ui.widget_data.len(), 3);
    // a click on nothing changes nothing
    assert_eq!(click_at(&mut ui, 190, 95, 4000), (false, true, true));
}

#[test]
fn the_knob_of_a_switch_changes_sides() {
    let mut ui = Context::new();
    let mut on = false;
    let mut frame = |ui: &mut Context, on: &mut bool| {
        ui.begin_frame();
        ui.begin("panel", panel());
        let r = ui.switch("power", on, 10, 16);
        ui.end().unwrap();
        ui.end_frame().unwrap();
        r
    };
    assert!(!frame(&mut ui, &mut on));
    assert_eq!(ui.nodes.len(), 5);
    let knob = ui.nodes[3];
    assert_eq!((knob.size.w, knob.size.h), (19, 19));
    assert_eq!(knob.pos, Point::new(2, 2));
    assert_eq!(knob.style.fill, Some(ui.theme.btn_press));
    on = true;
    assert!(frame(&mut ui, &mut on));
    assert_eq!(ui.nodes.len(), 6);
    let rail = ui.nodes[2];
    assert_eq!(rail.style.fill, Some(ui.theme.btn_press));
    let knob = ui.nodes[4];
    // the rail is 43 + 4 wide; the knob ends at its right padding
    assert_eq!(knob.pos, Point::new(47 - 2 - 19, 2));
}

#[test]
fn text_and_separators_are_plain_nodes() {
    let mut ui = Context::new();
    ui.begin_frame();
    ui.begin("panel", panel());
    ui.text("hello", 35, 16);
    ui.separator_h(3, RGBA::rgb(9, 8, 7));
    ui.end().unwrap();
    ui.end_frame().unwrap();
    let text = ui.nodes[1];
    assert_eq!((text.size.w, text.size.h), (35, 24));
    let line = ui.nodes[2];
    assert_eq!((line.size.w, line.size.h), (200, 3));
    assert_eq!(line.pos, Point::new(0, 24));
    let list = ui.finish();
    assert_eq!(list.len(), 1);
    assert_eq!(list[0].fill, Some(RGBA::rgb(9, 8, 7)));
}

fn slider_frame(ui: &mut Context, num: u32, den: u32) -> Option<(u32, u32)> {
    ui.begin_frame();
    ui.begin("panel", panel());
    let r = ui.slider("vol", 100, num, den, 20, 16);
    ui.end().unwrap();
    ui.end_frame().unwrap();
    r
}

#[test]
fn a_slider_follows_the_pointer_while_it_is_held() {
    let mut ui = Context::new();
    assert_eq!(slider_frame(&mut ui, 1, 2), None);
    assert_eq!(ui.nodes.len(), 6);
    let rail = ui.nodes[2];
    assert_eq!((rail.size.w, rail.size.h), (104, 28));
    // the knob can go 76 units; half of that is 38
    assert_eq!(ui.nodes[3].size.w, 38);
    assert_eq!(ui.nodes[4].pos, Point::new(2 + 38, 2));
    assert_eq!((ui.nodes[4].size.w, ui.nodes[4].size.h), (19, 19));

    ui.mouse.set_mouse_pos(50, 10);
    assert_eq!(slider_frame(&mut ui, 1, 2), None);
    assert_eq!(ui.cursor_icon, wgpui::CursorIcon::MoveH);
    assert!(!ui.expect_drag);
    ui.mouse.set_button_press(MouseButton::Left, true, 0);
    assert_eq!(slider_frame(&mut ui, 1, 2), Some((31, 76)));
    assert!(ui.expect_drag);
    assert_eq!(ui.nodes[3].size.w, 31);
    assert_eq!(ui.nodes[2].style.fill, Some(ui.theme.btn_hover));
    // the drag goes on outside, and the knob stops at the end of its way
    ui.mouse.set_mouse_pos(500, 300);
    assert_eq!(slider_frame(&mut ui, 31, 76), Some((76, 76)));
    assert!(!ui.expect_drag);
    assert_eq!(ui.cursor_icon, wgpui::CursorIcon::Default);
    assert_eq!(ui.nodes[2].style.fill, Some(ui.theme.btn_press));
    assert_eq!(ui.nodes[4].style.fill, Some(ui.theme.btn_hover));
    ui.mouse.set_mouse_pos(-40, 10);
    assert_eq!(slider_frame(&mut ui, 76, 76), Some((0, 76)));
    ui.mouse.set_button_press(MouseButton::Left, false, 900);
    assert_eq!(slider_frame(&mut ui, 0, 76), None);
    assert_eq!(ui.nodes[3].size.w, 0);
    // fractions from the caller are held at one, and nothing over nothing is nothing
    assert_eq!(slider_frame(&mut ui, 9, 3), None);
    assert_eq!(ui.nodes[3].size.w, 76);
    assert_eq!(slider_frame(&mut ui, 9, 0), None);
    assert_eq!(ui.nodes[3].size.w, 0);
}

#[test]
fn hex_codes_name_colours() {
    assert_eq!(RGBA::hex("#242933"), Some(RGBA::rgb(0x24, 0x29, 0x33)));
    assert_eq!(RGBA::hex("ff000080"), Some(RGBA::rgba(255, 0, 0, 128)));
    assert_eq!(RGBA::hex("###AbCdEf"), Some(RGBA::rgb(0xab, 0xcd, 0xef)));
    assert_eq!(RGBA::hex("#00000000"), Some(RGBA::rgba(0, 0, 0, 0)));
    assert_eq!(RGBA::hex("+f+0+a"), Some(RGBA::rgb(15, 0, 10)));
    assert_eq!(RGBA::hex(""), None);
    assert_eq!(RGBA::hex("#"), None);
    assert_eq!(RGBA::hex("#fff"), None);
    assert_eq!(RGBA::hex("#12345"), None);
    assert_eq!(RGBA::hex("#1234567"), None);
    assert_eq!(RGBA::hex("#123456789"), None);
    assert_eq!(RGBA::hex("#gg0000"), None);
    assert_eq!(RGBA::hex("#0000f+"), None);
    assert_eq!(RGBA::hex("#-10000"), None);
    assert_eq!(RGBA::hex("24#2933"), None);
    assert_eq!(RGBA::hex("#äbcd"), None);
    assert_eq!(wgpui::color::hex_digit(b'7'), Some(7));
    assert_eq!(wgpui::color::hex_digit(b'g'), None);
    assert_eq!(wgpui::color::hex_pair(b'f', b'F'), Some(255));
}
