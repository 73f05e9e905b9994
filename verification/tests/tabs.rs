use wgpui::{Context, Id, MouseButton, Point, Rect, SizingMode, Style, TabBar, TabItem, UiError};

fn strip() -> TabBar {
    let mut tb = TabBar::new();
    tb.bar_rect = Rect::from_min_max(Point::new(0, 0), Point::new(120, 24));
    assert_eq!(tb.touch(Id(1), 40), None);
    assert_eq!(tb.touch(Id(2), 50), None);
    assert_eq!(tb.touch(Id(3), 30), None);
    tb.layout_tabs();
    tb
}

fn ids(tb: &TabBar) -> Vec<u64> {
    tb.tabs.iter().map(|t| t.id.0).collect()
}

fn offsets(tb: &TabBar) -> Vec<i64> {
    tb.tabs.iter().map(|t| t.offset).collect()
}

fn total_width(tb: &TabBar) -> u64 {
    tb.tabs.iter().map(|t| t.width as u64).sum()
}

#[test]
fn tabs_are_laid_out_one_behind_the_other() {
    let mut tb = strip();
    assert_eq!(offsets(&tb), vec![0, 40, 90]);
    assert_eq!(tb.selected_tab_id, Id(1));
    tb.gap = 3;
    tb.layout_tabs();
    assert_eq!(offsets(&tb), vec![0, 43, 96]);
    assert_eq!(tb.tab_rect(1), Rect::from_min_max(Point::new(43, 0), Point::new(93, 24)));
    assert_eq!(tb.position(Id(3)), Some(2));
    assert_eq!(tb.position(Id(4)), None);
    assert_eq!(tb.touch(Id(2), 55), Some(1));
    assert_eq!(tb.tabs[1], TabItem { id: Id(2), width: 55, offset: 43 });
}

#[test]
fn dragging_a_tab_past_the_middle_of_the_next_reorders() {
    let mut tb = strip();
    let before = total_width(&tb);
    // tab 3 begins at 90 and is 30 wide: its middle is at 105
    assert_eq!(tb.get_insert_pos(106, 50, 1), 2);
    tb.move_tab(1, 2);
    assert_eq!(ids(&tb), vec![1, 3, 2]);
    assert_eq!(total_width(&tb), before);
    tb.layout_tabs();
    assert_eq!(offsets(&tb), vec![0, 40, 70]);
}

#[test]
fn the_insert_place_follows_the_edges() {
    let tb = strip();
    // at rest
    assert_eq!(tb.get_insert_pos(40, 50, 1), 1);
    // the right edge has not passed the middle of tab 3
    assert_eq!(tb.get_insert_pos(55, 50, 1), 1);
    assert_eq!(tb.get_insert_pos(56, 50, 1), 2);
    // the left edge has passed the middle of tab 1, which is at 20
    assert_eq!(tb.get_insert_pos(20, 50, 1), 1);
    assert_eq!(tb.get_insert_pos(19, 50, 1), 0);
    assert_eq!(tb.get_insert_pos(-500, 50, 1), 0);
    assert_eq!(tb.get_insert_pos(500, 50, 1), 2);
    assert_eq!(tb.get_insert_pos(0, 40, 0), 0);
    assert_eq!(tb.get_insert_pos(90, 30, 2), 2);
}

#[test]
fn moving_keeps_the_order_of_the_others() {
    let mut tb = strip();
    tb.touch(Id(4), 10);
    tb.move_tab(0, 3);
    assert_eq!(ids(&tb), vec![2, 3, 4, 1]);
    tb.move_tab(2, 0);
    assert_eq!(ids(&tb), vec![4, 2, 3, 1]);
    tb.move_tab(1, 1);
    assert_eq!(ids(&tb), vec![4, 2, 3, 1]);
    tb.move_tab(1, 4);
    tb.move_tab(9, 0);
    assert_eq!(ids(&tb), vec![4, 2, 3, 1]);
}

#[test]
fn the_drag_follows_the_pointer_at_a_fixed_distance() {
    let mut tb = strip();
    // a press selects
    let x = tb.drag_step(1, true, false, true, true, 50);
    assert_eq!(x, 40);
    assert_eq!(tb.selected_tab_id, Id(2));
    assert!(!tb.is_dragging);
    // the drag starts: the pointer is 20 right of the tab's left edge
    let x = tb.drag_step(1, true, true, true, true, 60);
    assert!(tb.is_dragging);
    assert_eq!(tb.dragging_offset, -20);
    assert_eq!(x, 40);
    assert_eq!(ids(&tb), vec![1, 2, 3]);
    // the tab follows, and is held inside the strip
    let x = tb.drag_step(1, false, true, true, true, 130);
    assert_eq!(tb.dragging_offset, -20);
    assert_eq!(x, 70);
    assert_eq!(ids(&tb), vec![1, 3, 2]);
    // the other tabs rest while one is dragged
    let x = tb.drag_step(0, false, false, false, true, 130);
    assert_eq!(x, 0);
    assert_eq!(ids(&tb), vec![1, 3, 2]);
    // the release ends the drag
    tb.layout_tabs();
    let x = tb.drag_step(2, false, false, false, false, 130);
    assert!(!tb.is_dragging);
    assert_eq!(tb.selected_tab_id, Id(2));
    assert_eq!(x, 70);
    assert_eq!(ids(&tb), vec![1, 3, 2]);
}

fn bar_frame(ui: &mut Context) -> (bool, bool, bool) {
    ui.begin_frame();
    let mut panel = Style::plain();
    panel.sizing_x = SizingMode::Fixed(120);
    panel.sizing_y = SizingMode::Fixed(100);
    ui.begin("panel", panel);
    ui.begin_tabbar("tabs");
    let a = ui.tabitem("one", 40, 24).unwrap();
    let b = ui.tabitem("two", 50, 24).unwrap();
    let c = ui.tabitem("three", 30, 24).unwrap();
    ui.end_tabbar().unwrap();
    ui.end().unwrap();
    ui.end_frame().unwrap();
    (a, b, c)
}

#[test]
fn a_tab_is_dragged_to_a_new_place_over_several_frames() {
    let mut ui = Context::new();
    let bar = ui.gen_id("tabs");
    ui.push_id(bar);
    let (one, two, three) = (ui.gen_id("one"), ui.gen_id("two"), ui.gen_id("three"));
    ui.pop_id();

    // the first frame only collects the tabs
    assert_eq!(bar_frame(&mut ui), (true, false, false));
    assert_eq!(ui.tabbars[&bar.0].tabs.len(), 3);
    assert_eq!(ui.tabbars[&bar.0].selected_tab_id, one);
    assert_eq!(ui.store.len(), 2);
    // the second knows where the bar is, and draws them
    assert_eq!(bar_frame(&mut ui), (true, false, false));
    assert_eq!(ui.tabbars[&bar.0].bar_rect, Rect::from_min_max(Point::new(0, 0), Point::new(120, 24)));
    assert_eq!(ui.store.len(), 5);
    assert_eq!(ui.store.lookup(two).unwrap().pos, Point::new(40, 0));
    assert_eq!(ui.store.lookup(two).unwrap().size.w, 50);

    // press on the second tab
    ui.mouse.set_mouse_pos(50, 10);
    ui.mouse.set_button_press(MouseButton::Left, true, 0);
    assert_eq!(bar_frame(&mut ui), (true, false, false));
    assert_eq!(ui.tabbars[&bar.0].selected_tab_id, two);
    assert_eq!(ui.active_id, two);
    // drag it a little
    ui.mouse.set_mouse_pos(60, 10);
    assert_eq!(bar_frame(&mut ui), (false, true, false));
    assert!(ui.tabbars[&bar.0].is_dragging);
    assert_eq!(ui.tabbars[&bar.0].dragging_offset, -20);
    // and past the middle of the third
    ui.mouse.set_mouse_pos(130, 10);
    assert_eq!(bar_frame(&mut ui), (false, true, false));
    let order: Vec<Id> = ui.tabbars[&bar.0].tabs.iter().map(|t| t.id).collect();
    assert_eq!(order, vec![one, three, two]);
    assert_eq!(ui.store.lookup(two).unwrap().pos, Point::new(70, 0));
    // let go
    ui.mouse.set_button_press(MouseButton::Left, false, 900);
    assert_eq!(bar_frame(&mut ui), (false, true, false));
    assert!(!ui.tabbars[&bar.0].is_dragging);
    let widths: Vec<u32> = ui.tabbars[&bar.0].tabs.iter().map(|t| t.width).collect();
    assert_eq!(widths, vec![40, 30, 50]);
    let at: Vec<i64> = ui.tabbars[&bar.0].tabs.iter().map(|t| t.offset).collect();
    assert_eq!(at, vec![0, 40, 70]);
    assert_eq!(ui.store.lookup(three).unwrap().pos, Point::new(40, 0));
}

#[test]
fn tabs_need_a_tab_bar() {
    let mut ui = Context::new();
    ui.begin_frame();
    assert_eq!(ui.tabitem("lost", 10, 10), Err(UiError::NoOpenTabBar));
    assert_eq!(ui.end_tabbar(), Err(UiError::NoOpenTabBar));
    ui.begin_tabbar("tabs");
    ui.push_id(Id(3));
    assert_eq!(ui.end_tabbar(), Err(UiError::ScopeMismatch));
    ui.pop_id();
    assert_eq!(ui.end_tabbar(), Ok(()));
    assert_eq!(ui.current_tabbar_id, Id::null());
    assert_eq!(ui.scopes.len(), 0);
    ui.begin_tabbar("tabs");
    ui.end().unwrap();
    assert_eq!(ui.end_tabbar(), Err(UiError::NoOpenNode));
    ui.current_tabbar_id = Id(12345);
    assert_eq!(ui.tabitem("lost", 10, 10), Err(UiError::NoOpenTabBar));
}
