use wgpui::{Axis, Context, Id, Padding, SizingMode, Style};

fn fixed(w: u32, h: u32) -> Style {
    let mut s = Style::plain();
    s.sizing_x = SizingMode::Fixed(w);
    s.sizing_y = SizingMode::Fixed(h);
    s
}

fn grow_x(h: u32) -> Style {
    let mut s = Style::plain();
    s.sizing_x = SizingMode::Grow;
    s.sizing_y = SizingMode::Fixed(h);
    s
}

fn node_of(ui: &Context, id: Id) -> wgpui::Node {
    ui.store.lookup(id).unwrap()
}

#[test]
fn fit_parent_adds_padding_gaps_and_children() {
    let mut ui = Context::new();
    ui.begin_frame();
    let mut row = Style::plain();
    row.sizing_x = SizingMode::Fit;
    row.sizing_y = SizingMode::Fit;
    row.padding = Padding { left: 3, right: 5, top: 7, bottom: 11 };
    row.gap = 2;
    row.axis = Axis::X;
    let root = ui.begin("row", row);
    let a = ui.begin("a", fixed(10, 4));
    ui.end().unwrap();
    let b = ui.begin("b", fixed(20, 9));
    ui.end().unwrap();
    let c = ui.begin("c", fixed(30, 6));
    ui.end().unwrap();
    ui.end().unwrap();
    ui.end_frame().unwrap();

    let r = node_of(&ui, root);
    assert_eq!(r.fit.w, 3 + 5 + 2 * 2 + 10 + 20 + 30);
    assert_eq!(r.fit.h, 7 + 11 + 9);
    assert_eq!(r.size, r.fit);
    assert_eq!((r.pos.x, r.pos.y), (0, 0));
    let (na, nb, nc) = (node_of(&ui, a), node_of(&ui, b), node_of(&ui, c));
    assert_eq!((na.pos.x, na.pos.y), (3, 7));
    assert_eq!((nb.pos.x, nb.pos.y), (3 + 10 + 2, 7));
    assert_eq!((nc.pos.x, nc.pos.y), (3 + 10 + 2 + 20 + 2, 7));
    assert_eq!(na.size.w, 10);
    assert_eq!(nc.size.h, 6);
}

#[test]
fn grow_children_share_leftover_evenly() {
    let mut ui = Context::new();
    ui.begin_frame();
    let mut row = fixed(100, 20);
    row.padding = Padding { left: 5, right: 5, top: 0, bottom: 0 };
    row.gap = 0;
    let _root = ui.begin("row", row);
    let a = ui.begin("a", grow_x(10));
    ui.end().unwrap();
    let f = ui.begin("f", fixed(30, 10));
    ui.end().unwrap();
    let b = ui.begin("b", grow_x(10));
    ui.end().unwrap();
    ui.end().unwrap();
    ui.end_frame().unwrap();
    // the fixed parent is 100 plus its padding wide; 100 are left inside
    assert_eq!(node_of(&ui, a).size.w, 35);
    assert_eq!(node_of(&ui, b).size.w, 35);
    assert_eq!(node_of(&ui, f).size.w, 30);
    assert_eq!(node_of(&ui, b).pos.x, 5 + 35 + 30);
}

#[test]
fn grow_hands_odd_units_to_the_first() {
    let mut ui = Context::new();
    ui.begin_frame();
    let _root = ui.begin("row", fixed(10, 20));
    let a = ui.begin("a", grow_x(10));
    ui.end().unwrap();
    let b = ui.begin("b", grow_x(10));
    ui.end().unwrap();
    let c = ui.begin("c", grow_x(10));
    ui.end().unwrap();
    ui.end().unwrap();
    ui.end_frame().unwrap();
    assert_eq!(node_of(&ui, a).size.w, 4);
    assert_eq!(node_of(&ui, b).size.w, 3);
    assert_eq!(node_of(&ui, c).size.w, 3);
}

#[test]
fn untouched_nodes_are_pruned() {
    let mut ui = Context::new();
    ui.begin_frame();
    let root = ui.begin("root", fixed(10, 10));
    let gone = ui.begin("gone", fixed(1, 1));
    ui.end().unwrap();
    ui.end().unwrap();
    ui.end_frame().unwrap();
    assert!(ui.store.contains(root));
    assert!(ui.store.contains(gone));
    assert_eq!(ui.store.len(), 2);

    ui.begin_frame();
    let root2 = ui.begin("root", fixed(10, 10));
    ui.end().unwrap();
    ui.end_frame().unwrap();
    assert_eq!(root, root2);
    assert!(ui.store.contains(root));
    assert!(!ui.store.contains(gone));
    assert_eq!(ui.store.len(), 1);
}

#[test]
fn unbalanced_frame_is_an_error() {
    let mut ui = Context::new();
    ui.begin_frame();
    ui.begin("open", Style::plain());
    assert_eq!(ui.end_frame(), Err(wgpui::UiError::UnbalancedFrame));
    ui.end().unwrap();
    assert_eq!(ui.end(), Err(wgpui::UiError::NoOpenNode));
    assert_eq!(ui.end_frame(), Ok(()));
}

#[test]
fn a_fixed_node_adds_its_own_padding() {
    let mut ui = Context::new();
    ui.begin_frame();
    let mut s = fixed(100, 50);
    s.padding = Padding { left: 1, right: 2, top: 3, bottom: 4 };
    let id = ui.begin("box", s);
    ui.end().unwrap();
    ui.end_frame().unwrap();
    let n = node_of(&ui, id);
    assert_eq!((n.size.w, n.size.h), (103, 57));
}

#[test]
fn a_column_sums_heights_and_takes_the_widest() {
    let mut ui = Context::new();
    ui.begin_frame();
    let mut col = Style::plain();
    col.axis = Axis::Y;
    col.gap = 5;
    let root = ui.begin("col", col);
    let a = ui.begin("a", fixed(10, 20));
    ui.end().unwrap();
    let b = ui.begin("b", fixed(40, 30));
    ui.end().unwrap();
    ui.end().unwrap();
    ui.end_frame().unwrap();
    let r = node_of(&ui, root);
    assert_eq!((r.size.w, r.size.h), (40, 55));
    assert_eq!((node_of(&ui, a).pos.x, node_of(&ui, a).pos.y), (0, 0));
    assert_eq!((node_of(&ui, b).pos.x, node_of(&ui, b).pos.y), (0, 25));
}

#[test]
fn content_counts_for_a_fitted_leaf() {
    let mut ui = Context::new();
    ui.begin_frame();
    let mut s = Style::plain();
    s.sizing_x = SizingMode::Fit;
    s.content_w = 37;
    s.content_h = 11;
    s.padding = Padding::all(2);
    let id = ui.begin("text", s);
    ui.end().unwrap();
    ui.end_frame().unwrap();
    let n = node_of(&ui, id);
    assert_eq!((n.fit.w, n.fit.h), (41, 15));
}

#[test]
fn grow_raises_the_smallest_first() {
    let mut ui = Context::new();
    ui.begin_frame();
    let _root = ui.begin("row", fixed(100, 10));
    // grows from its content of 30
    let mut big = grow_x(10);
    big.content_w = 30;
    let a = ui.begin("a", big);
    ui.end().unwrap();
    let b = ui.begin("b", grow_x(10));
    ui.end().unwrap();
    ui.end().unwrap();
    ui.end_frame().unwrap();
    // 70 are left: the empty one is raised to 30, the rest is split
    assert_eq!(node_of(&ui, a).size.w, 50);
    assert_eq!(node_of(&ui, b).size.w, 50);
}

#[test]
fn grow_stops_at_the_next_level_when_space_runs_out() {
    let mut ui = Context::new();
    ui.begin_frame();
    let _root = ui.begin("row", fixed(40, 10));
    let mut big = grow_x(10);
    big.content_w = 30;
    let a = ui.begin("a", big);
    ui.end().unwrap();
    let b = ui.begin("b", grow_x(10));
    ui.end().unwrap();
    ui.end().unwrap();
    ui.end_frame().unwrap();
    assert_eq!(node_of(&ui, a).size.w, 30);
    assert_eq!(node_of(&ui, b).size.w, 10);
}

#[test]
fn nothing_shrinks_when_children_overflow() {
    let mut ui = Context::new();
    ui.begin_frame();
    let root = ui.begin("row", fixed(20, 10));
    let a = ui.begin("a", fixed(30, 10));
    ui.end().unwrap();
    let g = ui.begin("g", grow_x(10));
    ui.end().unwrap();
    ui.end().unwrap();
    ui.end_frame().unwrap();
    assert_eq!(node_of(&ui, root).size.w, 20);
    assert_eq!(node_of(&ui, a).size.w, 30);
    assert_eq!(node_of(&ui, g).size.w, 0);
    assert_eq!(node_of(&ui, g).pos.x, 30);
}

#[test]
fn grow_across_the_axis_fills_the_parent() {
    let mut ui = Context::new();
    ui.begin_frame();
    let mut row = fixed(100, 40);
    row.padding = Padding { left: 0, right: 0, top: 4, bottom: 6 };
    let _root = ui.begin("row", row);
    let mut tall = Style::plain();
    tall.sizing_x = SizingMode::Fixed(10);
    tall.sizing_y = SizingMode::Grow;
    let a = ui.begin("a", tall);
    ui.end().unwrap();
    ui.end().unwrap();
    ui.end_frame().unwrap();
    let n = node_of(&ui, a);
    assert_eq!((n.size.w, n.size.h), (10, 40));
    assert_eq!((n.pos.x, n.pos.y), (0, 4));
}

#[test]
fn nested_grow_is_resolved_top_down() {
    let mut ui = Context::new();
    ui.begin_frame();
    let _root = ui.begin("root", fixed(200, 10));
    let mid = ui.begin("mid", grow_x(10));
    let leaf = ui.begin("leaf", grow_x(10));
    ui.end().unwrap();
    ui.end().unwrap();
    let side = ui.begin("side", fixed(50, 10));
    ui.end().unwrap();
    ui.end().unwrap();
    ui.end_frame().unwrap();
    assert_eq!(node_of(&ui, mid).size.w, 150);
    assert_eq!(node_of(&ui, leaf).size.w, 150);
    assert_eq!(node_of(&ui, side).pos.x, 150);
}

#[test]
fn a_fixed_position_moves_the_node_and_its_children_only() {
    let mut ui = Context::new();
    ui.begin_frame();
    let _root = ui.begin("root", fixed(200, 50));
    let mut floating = fixed(20, 20);
    floating.fixed_pos = Some(wgpui::Point::new(500, -7));
    floating.padding = Padding::all(1);
    let f = ui.begin("float", floating);
    let inner = ui.begin("inner", fixed(5, 5));
    ui.end().unwrap();
    ui.end().unwrap();
    let next = ui.begin("next", fixed(10, 10));
    ui.end().unwrap();
    ui.end().unwrap();
    ui.end_frame().unwrap();
    assert_eq!((node_of(&ui, f).pos.x, node_of(&ui, f).pos.y), (500, -7));
    assert_eq!((node_of(&ui, inner).pos.x, node_of(&ui, inner).pos.y), (501, -6));
    // the sibling is placed as if the floating node stood in the row
    assert_eq!(node_of(&ui, next).pos.x, 22);
}

#[test]
fn a_root_stands_at_its_fixed_position() {
    let mut ui = Context::new();
    ui.begin_frame();
    let mut s = fixed(10, 10);
    s.fixed_pos = Some(wgpui::Point::new(30, 40));
    s.padding = Padding::all(3);
    let root = ui.begin("root", s);
    let kid = ui.begin("kid", fixed(1, 1));
    ui.end().unwrap();
    ui.end().unwrap();
    ui.end_frame().unwrap();
    assert_eq!((node_of(&ui, root).pos.x, node_of(&ui, root).pos.y), (30, 40));
    assert_eq!((node_of(&ui, kid).pos.x, node_of(&ui, kid).pos.y), (33, 43));
}

#[test]
fn several_roots_are_laid_out_one_by_one() {
    let mut ui = Context::new();
    ui.begin_frame();
    let a = ui.begin("a", fixed(10, 10));
    ui.end().unwrap();
    let b = ui.begin("b", fixed(20, 20));
    let c = ui.begin("c", grow_x(5));
    ui.end().unwrap();
    ui.end().unwrap();
    ui.end_frame().unwrap();
    assert_eq!(ui.roots, vec![0, 1]);
    assert_eq!(node_of(&ui, a).size.w, 10);
    assert_eq!(node_of(&ui, b).size.w, 20);
    assert_eq!(node_of(&ui, c).size.w, 20);
    assert_eq!(ui.store.len(), 3);
}

#[test]
fn the_store_is_filled_when_the_root_ends() {
    let mut ui = Context::new();
    ui.begin_frame();
    let root = ui.begin("root", fixed(10, 10));
    let kid = ui.begin("kid", fixed(1, 1));
    ui.end().unwrap();
    assert!(!ui.store.contains(kid));
    assert!(!ui.store.contains(root));
    ui.end().unwrap();
    assert!(ui.store.contains(kid));
    assert!(ui.store.contains(root));
    assert_eq!(node_of(&ui, kid).last_touched, ui.frame);
}

#[test]
fn a_node_is_taken_out_of_the_store_while_it_is_rebuilt() {
    let mut ui = Context::new();
    ui.begin_frame();
    let root = ui.begin("root", fixed(10, 12));
    ui.end().unwrap();
    ui.end_frame().unwrap();
    ui.begin_frame();
    assert!(ui.store.contains(root));
    ui.begin("root", fixed(30, 30));
    assert!(!ui.store.contains(root));
    // the new node carries the old geometry until the layout has run
    assert_eq!(ui.nodes[0].size.w, 10);
    assert_eq!(ui.nodes[0].fit.w, 0);
    ui.end().unwrap();
    assert_eq!(node_of(&ui, root).size.w, 30);
    ui.end_frame().unwrap();
}

#[test]
fn links_follow_the_order_of_declaration() {
    let mut ui = Context::new();
    ui.begin_frame();
    ui.begin("root", Style::plain());
    ui.begin("a", Style::plain());
    ui.end().unwrap();
    ui.begin("b", Style::plain());
    ui.begin("b1", Style::plain());
    ui.end().unwrap();
    ui.end().unwrap();
    ui.begin("c", Style::plain());
    ui.end().unwrap();
    ui.end().unwrap();
    let n = &ui.nodes;
    assert_eq!(n[0].child_count, 3);
    assert_eq!(n[0].first_child, Some(1));
    assert_eq!(n[0].last_child, Some(4));
    assert_eq!(n[1].next_sibling, Some(2));
    assert_eq!(n[2].prev_sibling, Some(1));
    assert_eq!(n[2].next_sibling, Some(4));
    assert_eq!(n[4].prev_sibling, Some(2));
    assert_eq!(n[4].next_sibling, None);
    assert_eq!(n[2].first_child, Some(3));
    assert_eq!(n[3].parent, Some(2));
    assert_eq!(n[0].parent, None);
    assert_eq!(wgpui::sizing::children_of(&ui.nodes, 0), vec![1, 2, 4]);
}

#[test]
fn lookups_of_missing_and_reserved_ids_fail() {
    let ui = Context::new();
    assert_eq!(ui.store.lookup(Id::null()), Err(wgpui::UiError::NullId));
    assert_eq!(ui.store.lookup(Id(77)), Err(wgpui::UiError::UnknownId));
    assert_eq!(ui.store.get(Id(77)), None);
}

#[test]
fn the_store_keeps_what_it_is_given() {
    let mut store = wgpui::NodeStore::new();
    let mut n = wgpui::Node::empty(Id(3));
    n.size = wgpui::Size::new(4, 5);
    n.last_touched = 9;
    assert!(store.insert(n));
    assert!(!store.insert(wgpui::Node::empty(Id::null())));
    let mut bad = wgpui::Node::empty(Id(4));
    bad.size = wgpui::Size::new(-1, 0);
    assert!(!store.insert(bad));
    assert_eq!(store.len(), 1);
    assert_eq!(store.lookup(Id(3)), Ok(n));
    let mut m = wgpui::Node::empty(Id(8));
    m.last_touched = 10;
    assert!(store.insert(m));
    store.prune(10);
    assert!(!store.contains(Id(3)));
    assert_eq!(store.get(Id(8)), Some(m));
    assert_eq!(store.take(Id(8)), Some(m));
    assert_eq!(store.take(Id(8)), None);
    assert_eq!(store.len(), 0);
}

#[test]
fn the_draw_list_follows_the_nodes() {
    let mut ui = Context::new();
    ui.begin_frame();
    let mut panel = fixed(100, 50);
    panel.fill = Some(wgpui::RGBA::rgb(1, 2, 3));
    panel.corner_radius = 6;
    panel.padding = Padding::all(10);
    ui.begin("panel", panel);
    // no fill, nothing to draw
    ui.begin("ghost", fixed(5, 5));
    ui.end().unwrap();
    // a fill but no area
    let mut flat = fixed(0, 5);
    flat.fill = Some(wgpui::RGBA::rgb(9, 9, 9));
    ui.begin("flat", flat);
    ui.end().unwrap();
    let mut lined = fixed(7, 8);
    lined.outline = Some(wgpui::Outline { color: wgpui::RGBA::rgba(4, 5, 6, 7), width: 2 });
    ui.begin("lined", lined);
    ui.end().unwrap();
    ui.end().unwrap();
    assert_eq!(ui.finish().len(), 0);
    ui.end_frame().unwrap();
    let list = ui.finish();
    assert_eq!(list.len(), 2);
    let r = |x0, y0, x1, y1| wgpui::Rect::from_min_max(wgpui::Point::new(x0, y0), wgpui::Point::new(x1, y1));
    assert_eq!(list[0], r(0, 0, 120, 70).draw().fill(wgpui::RGBA::rgb(1, 2, 3)).corner_radius(6));
    assert_eq!(list[1], r(15, 10, 22, 18).draw().outline(wgpui::RGBA::rgba(4, 5, 6, 7), 2));
    assert_eq!(list, wgpui::ui::emit(&ui.nodes));
}

#[test]
fn water_fill_fills_level_by_level() {
    let mut ext = vec![5, 0, 9, 2, 100];
    let grows = vec![true, true, false, true, true];
    wgpui::grow::water_fill(&mut ext, &grows, 12);
    // 0 -> 2 (2), then 2,2 -> 5 (6), then 5,5,5 share the last 4
    assert_eq!(ext, vec![7, 6, 9, 6, 100]);
    let mut ext = vec![1, 2, 3];
    wgpui::grow::water_fill(&mut ext, &vec![false, false, false], 50);
    assert_eq!(ext, vec![1, 2, 3]);
    wgpui::grow::water_fill(&mut ext, &vec![true, true, true], 0);
    assert_eq!(ext, vec![1, 2, 3]);
    wgpui::grow::water_fill(&mut ext, &vec![true, true, true], -4);
    assert_eq!(ext, vec![1, 2, 3]);
    assert_eq!(wgpui::grow::lowest(&ext, &vec![false, true, true]), Some(2));
    assert_eq!(wgpui::grow::lowest(&ext, &vec![false, false, false]), None);
    assert_eq!(wgpui::grow::level_info(&vec![2, 2, 5, 7], &vec![true, true, true, false], 2), (2, Some(5)));
}

#[test]
fn the_frame_count_wraps_and_empties_the_store() {
    let mut ui = Context::new();
    ui.begin_frame();
    let id = ui.begin("a", fixed(1, 1));
    ui.end().unwrap();
    ui.end_frame().unwrap();
    assert_eq!(ui.frame, 1);
    ui.frame = u64::MAX;
    ui.begin_frame();
    assert_eq!(ui.frame, 1);
    assert!(!ui.store.contains(id));
}

#[test]
fn four_grow_children_get_a_quarter_each() {
    let mut ui = Context::new();
    ui.begin_frame();
    let mut row = fixed(100, 10);
    row.gap = 4;
    let _root = ui.begin("row", row);
    let mut ids = Vec::new();
    for label in ["a", "b", "c", "d"] {
        ids.push(ui.begin(label, grow_x(10)));
        ui.end().unwrap();
    }
    ui.end().unwrap();
    ui.end_frame().unwrap();
    // 100 less three gaps of 4 leaves 88
    for (k, id) in ids.iter().enumerate() {
        assert_eq!(node_of(&ui, *id).size.w, 22);
        assert_eq!(node_of(&ui, *id).pos.x, 26 * k as i64);
    }
}
