//! The session: the frame under construction, the retained nodes, the
//! pointer, and the list of rectangles that a frame hands to the renderer.

use crate::color::RGBA;
use crate::error::UiError;
use crate::frame::{frame_ok, lemma_begin, lemma_measured, lemma_root_done, stored_range};
use crate::geom::{Point, Rect, Size};
use crate::id::{id_from_label, spec_id_from_label, Id};
use crate::input_recorder::{MouseButton, MouseState, PerButton};
use crate::layout::{laid_out, layout_subtree};
use crate::node::{Node, Outline, Style};
use crate::sizing::{fit_ok, measure};
use crate::store::NodeStore;
use crate::tabbar::TabBar;
use crate::tree::{append_child, appended, tree_wf};
use rustc_hash::FxHashMap;
use vstd::prelude::*;

verus! {

/// A rectangle for the renderer.
#[derive(Debug, Clone, Copy, PartialEq, Eq, Structural)]
pub struct DrawRect {
    pub rect: Rect,
    pub fill: Option<RGBA>,
    pub outline: Option<Outline>,
    pub corner_radius: u32,
}

impl Rect {
    /// This rectangle as something to draw, with nothing drawn yet.
    pub fn draw(self) -> (d: DrawRect)
        ensures
            d == (DrawRect { rect: self, fill: None, outline: None, corner_radius: 0 }),
    {
        DrawRect::new(self)
    }
}

impl DrawRect {
    /// The rectangle with no fill, no outline and sharp corners.
    pub fn new(rect: Rect) -> (d: DrawRect)
        ensures
            d == (DrawRect { rect, fill: None, outline: None, corner_radius: 0 }),
    {
        DrawRect { rect, fill: None, outline: None, corner_radius: 0 }
    }

    /// The same with the fill `fill`.
    pub fn fill(self, fill: RGBA) -> (d: DrawRect)
        ensures
            d == (DrawRect { fill: Some(fill), ..self }),
    {
        DrawRect { fill: Some(fill), ..self }
    }

    /// The same with an outline of colour `col` and width `width`.
    pub fn outline(self, col: RGBA, width: u32) -> (d: DrawRect)
        ensures
            d == (DrawRect { outline: Some(Outline { color: col, width }), ..self }),
    {
        DrawRect { outline: Some(Outline { color: col, width }), ..self }
    }

    /// The same with corners rounded by `rad`.
    pub fn corner_radius(self, rad: u32) -> (d: DrawRect)
        ensures
            d == (DrawRect { corner_radius: rad, ..self }),
    {
        DrawRect { corner_radius: rad, ..self }
    }
}

/// Whether a node shows: it has a fill or an outline, and its rectangle
/// covers something.
pub open spec fn is_drawn(n: Node) -> bool {
    (n.style.fill is Some || n.style.outline is Some) && !n.spec_rect().spec_is_empty()
}

/// The rectangle that a node hands to the renderer.
pub open spec fn draw_of(n: Node) -> DrawRect {
    DrawRect {
        rect: n.spec_rect(),
        fill: n.style.fill,
        outline: n.style.outline,
        corner_radius: n.style.corner_radius,
    }
}

/// The rectangles of the first `m` nodes, in the order in which the nodes
/// were begun: parents before their children, earlier siblings first.
pub open spec fn emitted(nodes: Seq<Node>, m: int) -> Seq<DrawRect>
    decreases m,
{
    if m <= 0 {
        Seq::empty()
    } else {
        let rest = emitted(nodes, m - 1);
        if is_drawn(nodes[m - 1]) {
            rest.push(draw_of(nodes[m - 1]))
        } else {
            rest
        }
    }
}

/// The shape of the pointer.
#[derive(Debug, Clone, Copy, PartialEq, Eq, Structural)]
pub enum CursorIcon {
    Default,
    /// The pointer moves something sideways.
    MoveH,
}

/// Colours and measures that the widgets share.
#[derive(Debug, Clone, Copy, PartialEq, Eq, Structural)]
pub struct Theme {
    pub line_height: u32,
    pub text_size: u32,
    pub spacing: u32,
    pub btn_corner_radius: u32,
    pub btn_default: RGBA,
    pub btn_hover: RGBA,
    pub btn_press: RGBA,
    pub btn_press_text: RGBA,
    pub text_col: RGBA,
    pub panel_bg: RGBA,
    pub panel_dark_bg: RGBA,
}

impl Theme {
    /// A dark theme with lines 24 units high.
    pub open spec fn spec_dark() -> Theme {
        Theme {
            line_height: 24,
            text_size: 16,
            spacing: 4,
            btn_corner_radius: 4,
            btn_default: RGBA { r: 59, g: 66, b: 82, a: 255 },
            btn_hover: RGBA { r: 67, g: 76, b: 94, a: 255 },
            btn_press: RGBA { r: 136, g: 192, b: 208, a: 255 },
            btn_press_text: RGBA { r: 46, g: 52, b: 64, a: 255 },
            text_col: RGBA { r: 236, g: 239, b: 244, a: 255 },
            panel_bg: RGBA { r: 46, g: 52, b: 64, a: 255 },
            panel_dark_bg: RGBA { r: 36, g: 41, b: 51, a: 255 },
        }
    }

    /// A dark theme with lines 24 units high.
    #[verifier::when_used_as_spec(spec_dark)]
    pub fn dark() -> (t: Theme)
        ensures
            t == Theme::spec_dark(),
    {
        Theme {
            line_height: 24,
            text_size: 16,
            spacing: 4,
            btn_corner_radius: 4,
            btn_default: RGBA { r: 59, g: 66, b: 82, a: 255 },
            btn_hover: RGBA { r: 67, g: 76, b: 94, a: 255 },
            btn_press: RGBA { r: 136, g: 192, b: 208, a: 255 },
            btn_press_text: RGBA { r: 46, g: 52, b: 64, a: 255 },
            text_col: RGBA { r: 236, g: 239, b: 244, a: 255 },
            panel_bg: RGBA { r: 46, g: 52, b: 64, a: 255 },
            panel_dark_bg: RGBA { r: 36, g: 41, b: 51, a: 255 },
        }
    }
}

/// One session of the engine. All of it belongs to one caller at a time.
pub struct Context {
    /// The nodes that outlive the frame.
    pub store: NodeStore,
    /// The nodes of the frame under construction, in the order in which
    /// they were begun.
    pub nodes: Vec<Node>,
    /// The nodes that are open, the innermost on top.
    pub stack: Vec<usize>,
    /// The roots that were ended in this frame.
    pub roots: Vec<usize>,
    /// The scopes under which labels are hashed, the innermost on top.
    pub scopes: Vec<Id>,
    /// The number of the frame.
    pub frame: u64,
    /// The pointer as the input side keeps reporting it.
    pub mouse: MouseState,
    /// The pointer as it was when the frame began.
    pub input: MouseState,
    /// Which buttons were down when the frame before began.
    pub pressed_before: PerButton<bool>,
    /// The node that the pointer hovers over, as far as nodes were
    /// registered.
    pub hot_id: Id,
    /// The node that holds the press of a button.
    pub active_id: Id,
    /// The rectangles of the frame that ended last.
    pub draw_list: Vec<DrawRect>,
    /// The tab bars, by identity. They are kept for the whole session.
    pub tabbars: FxHashMap<u64, TabBar>,
    pub current_tabbar_id: Id,
    pub current_panel_id: Id,
    /// The pointer's shape that the widgets of this frame ask for.
    pub cursor_icon: CursorIcon,
    /// A widget was pressed in this frame and waits for the press to become
    /// a drag.
    pub expect_drag: bool,
    /// The state of the widgets that keep their own.
    pub widget_data: FxHashMap<u64, bool>,
    pub theme: Theme,
}

impl Context {
    /// Whether the session is sound: the store is, the frame under
    /// construction is, and every root on record is a node of the frame.
    pub open spec fn wf(&self) -> bool {
        &&& self.store.wf()
        &&& frame_ok(self.store@, self.nodes@, self.stack@, self.frame)
        &&& forall|k: int| 0 <= k < self.roots.len() ==> #[trigger] self.roots[k] < self.nodes.len()
    }

    /// Whether two sessions agree on everything but the frame under
    /// construction and the store.
    pub open spec fn same_session(&self, other: &Context) -> bool {
        &&& self.scopes@ == other.scopes@
        &&& self.frame == other.frame
        &&& self.mouse == other.mouse
        &&& self.input == other.input
        &&& self.pressed_before == other.pressed_before
        &&& self.hot_id == other.hot_id
        &&& self.active_id == other.active_id
        &&& self.draw_list@ == other.draw_list@
        &&& self.tabbars@ == other.tabbars@
        &&& self.current_tabbar_id == other.current_tabbar_id
        &&& self.current_panel_id == other.current_panel_id
        &&& self.cursor_icon == other.cursor_icon
        &&& self.expect_drag == other.expect_drag
        &&& self.widget_data@ == other.widget_data@
        &&& self.theme == other.theme
    }

    /// The scope under which labels are hashed: the innermost one, or the
    /// reserved identity where none is open.
    pub open spec fn scope_top(&self) -> Id {
        if self.scopes.len() > 0 {
            self.scopes[self.scopes.len() - 1]
        } else {
            Id(0)
        }
    }

    /// A session before its first frame.
    pub fn new() -> (c: Context)
        ensures
            c.wf(),
            c.nodes.len() == 0,
            c.stack.len() == 0,
            c.roots.len() == 0,
            c.scopes.len() == 0,
            c.store@ == Map::<u64, Node>::empty(),
            c.frame == 0,
            c.hot_id == Id(0),
            c.active_id == Id(0),
            c.draw_list.len() == 0,
            c.tabbars@ == Map::<u64, TabBar>::empty(),
            c.widget_data@ == Map::<u64, bool>::empty(),
            c.current_tabbar_id == Id(0),
            c.current_panel_id == Id(0),
            c.cursor_icon == CursorIcon::Default,
            !c.expect_drag,
            c.theme == Theme::spec_dark(),
            forall|b: MouseButton| !#[trigger] c.pressed_before.spec_get(b),
            c.mouse.is_fresh(),
            c.input.is_fresh(),
    {
        Context {
            store: NodeStore::new(),
            nodes: Vec::new(),
            stack: Vec::new(),
            roots: Vec::new(),
            scopes: Vec::new(),
            frame: 0,
            mouse: MouseState::new(),
            input: MouseState::new(),
            pressed_before: PerButton::splat(false),
            hot_id: Id(0),
            active_id: Id(0),
            draw_list: Vec::new(),
            tabbars: FxHashMap::default(),
            current_tabbar_id: Id(0),
            current_panel_id: Id(0),
            cursor_icon: CursorIcon::Default,
            expect_drag: false,
            widget_data: FxHashMap::default(),
            theme: Theme::dark(),
        }
    }

    /// The identity of `label` under the innermost scope.
    pub fn gen_id(&self, label: &str) -> (id: Id)
        ensures
            id == spec_id_from_label(self.scope_top(), label@),
            !id.spec_is_null(),
    {
        let top = if self.scopes.len() > 0 {
            self.scopes[self.scopes.len() - 1]
        } else {
            Id(0)
        };
        id_from_label(top, label)
    }

    /// Opens the scope `id`: labels are hashed under it until it is closed.
    pub fn push_id(&mut self, id: Id)
        ensures
            final(self).scopes@ == old(self).scopes@.push(id),
            final(self).store == old(self).store,
            final(self).nodes == old(self).nodes,
            final(self).stack == old(self).stack,
            final(self).roots == old(self).roots,
            final(self).frame == old(self).frame,
            final(self).mouse == old(self).mouse,
            final(self).input == old(self).input,
            final(self).pressed_before == old(self).pressed_before,
            final(self).hot_id == old(self).hot_id,
            final(self).active_id == old(self).active_id,
            final(self).draw_list == old(self).draw_list,
            final(self).tabbars == old(self).tabbars,
            final(self).current_tabbar_id == old(self).current_tabbar_id,
            final(self).current_panel_id == old(self).current_panel_id,
            final(self).cursor_icon == old(self).cursor_icon,
            final(self).expect_drag == old(self).expect_drag,
            final(self).widget_data == old(self).widget_data,
            final(self).theme == old(self).theme,
    {
        self.scopes.push(id);
    }

    /// Closes the innermost scope and returns it, or the reserved identity
    /// where none is open.
    pub fn pop_id(&mut self) -> (id: Id)
        ensures
            id == old(self).scope_top(),
            final(self).scopes@ == (if old(self).scopes.len() > 0 {
                old(self).scopes@.drop_last()
            } else {
                old(self).scopes@
            }),
            final(self).store == old(self).store,
            final(self).nodes == old(self).nodes,
            final(self).stack == old(self).stack,
            final(self).roots == old(self).roots,
            final(self).frame == old(self).frame,
            final(self).mouse == old(self).mouse,
            final(self).input == old(self).input,
            final(self).pressed_before == old(self).pressed_before,
            final(self).hot_id == old(self).hot_id,
            final(self).active_id == old(self).active_id,
            final(self).draw_list == old(self).draw_list,
            final(self).tabbars == old(self).tabbars,
            final(self).current_tabbar_id == old(self).current_tabbar_id,
            final(self).current_panel_id == old(self).current_panel_id,
            final(self).cursor_icon == old(self).cursor_icon,
            final(self).expect_drag == old(self).expect_drag,
            final(self).widget_data == old(self).widget_data,
            final(self).theme == old(self).theme,
    {
        match self.scopes.pop() {
            Some(id) => id,
            None => Id(0),
        }
    }

    /// Begins a frame: latches the pointer, forgets the frame before and
    /// what its widgets asked of the pointer, and counts one frame on. The store keeps the nodes of the frame before
    /// until this one ends. Should the frame count ever be exhausted, it
    /// starts over and the store is emptied.
    pub fn begin_frame(&mut self)
        requires
            old(self).wf(),
        ensures
            final(self).wf(),
            final(self).nodes.len() == 0,
            final(self).stack.len() == 0,
            final(self).roots.len() == 0,
            final(self).frame == (if old(self).frame == u64::MAX {
                1
            } else {
                (old(self).frame + 1) as u64
            }),
            final(self).store@ == (if old(self).frame == u64::MAX {
                Map::<u64, Node>::empty()
            } else {
                old(self).store@
            }),
            final(self).input == old(self).mouse,
            final(self).mouse == old(self).mouse,
            forall|b: MouseButton| #[trigger]
                final(self).pressed_before.spec_get(b) == old(self).input.spec_pressed(b),
            final(self).hot_id == Id(0),
            final(self).active_id == old(self).active_id,
            final(self).scopes == old(self).scopes,
            final(self).draw_list == old(self).draw_list,
            final(self).tabbars == old(self).tabbars,
            final(self).current_tabbar_id == old(self).current_tabbar_id,
            final(self).current_panel_id == old(self).current_panel_id,
            final(self).cursor_icon == CursorIcon::Default,
            !final(self).expect_drag,
            final(self).widget_data == old(self).widget_data,
            final(self).theme == old(self).theme,
    {
        self.nodes.clear();
        self.stack.clear();
        self.roots.clear();
        if self.frame == u64::MAX {
            self.store.clear();
            self.frame = 1;
        } else {
            self.frame = self.frame + 1;
        }
        self.pressed_before.set(MouseButton::Left, self.input.pressed(MouseButton::Left));
        self.pressed_before.set(MouseButton::Right, self.input.pressed(MouseButton::Right));
        self.pressed_before.set(MouseButton::Middle, self.input.pressed(MouseButton::Middle));
        self.input = self.mouse;
        self.hot_id = Id(0);
        self.cursor_icon = CursorIcon::Default;
        self.expect_drag = false;
    }

    /// Begins a node with the identity of `label` under the innermost scope,
    /// as the last child of the node that is open, or as a root where none
    /// is. The node of the frame before with that identity is taken out of
    /// the store and lends the new node its size and position until the
    /// layout replaces them; everything else is declared anew by `style`.
    /// The node stays open until `end`.
    pub fn begin(&mut self, label: &str, style: Style) -> (id: Id)
        requires
            old(self).wf(),
        ensures
            final(self).wf(),
            id == spec_id_from_label(old(self).scope_top(), label@),
            !id.spec_is_null(),
            final(self).begun(old(self), id, style),
    {
        let id = self.gen_id(label);
        self.begin_id(id, style);
        id
    }

    /// Whether this session is `before` with one more node begun, with the
    /// identity `id` and the style `style`.
    pub open spec fn begun(&self, before: &Context, id: Id, style: Style) -> bool {
        let n = before.nodes.len() as int;
        &&& self.stack@ == before.stack@.push(before.nodes.len())
        &&& self.store@ == before.store@.remove(id.0)
        &&& appended(
            before.nodes@,
            self.nodes@,
            if before.stack.len() > 0 {
                Some(before.stack[before.stack.len() - 1])
            } else {
                None
            },
        )
        &&& self.nodes[n].id == id
        &&& self.nodes[n].style == style
        &&& self.nodes[n].last_touched == before.frame
        &&& self.nodes[n].fit == (Size { w: 0, h: 0 })
        &&& self.nodes[n].size == (if before.store@.contains_key(id.0) {
            before.store@[id.0].size
        } else {
            Size { w: 0, h: 0 }
        })
        &&& self.nodes[n].pos == (if before.store@.contains_key(id.0) {
            before.store@[id.0].pos
        } else {
            Point { x: 0, y: 0 }
        })
        &&& self.roots == before.roots
        &&& self.same_session(before)
    }

    /// Begins a node with the identity `id`, which must not be the reserved
    /// one; in everything else this is `begin`.
    pub fn begin_id(&mut self, id: Id, style: Style)
        requires
            old(self).wf(),
            !id.spec_is_null(),
        ensures
            final(self).wf(),
            final(self).begun(old(self), id, style),
    {
        let ghost store0 = self.store@;
        let ghost before = self.nodes@;
        let ghost stack0 = self.stack@;
        let (size, pos) = match self.store.take(id) {
            Some(prev) => (prev.size, prev.pos),
            None => (Size { w: 0, h: 0 }, Point { x: 0, y: 0 }),
        };
        let parent: Option<usize> = if self.stack.len() > 0 {
            Some(self.stack[self.stack.len() - 1])
        } else {
            None
        };
        let node = Node {
            id,
            parent,
            first_child: None,
            last_child: None,
            next_sibling: None,
            prev_sibling: None,
            child_count: 0,
            style,
            fit: Size { w: 0, h: 0 },
            size,
            pos,
            last_touched: self.frame,
        };
        let idx = append_child(&mut self.nodes, parent, node);
        self.stack.push(idx);
        proof {
            lemma_begin(store0, before, self.nodes@, stack0, self.frame);
        }
    }

    /// Ends the node that is open innermost and measures it from its style
    /// and its children, which have all been ended before it. Where the
    /// node is a root, its whole subtree is then laid out, every node of the
    /// subtree is put into the store under its identity, later nodes over
    /// earlier ones, and the root goes on record; the nodes before the root
    /// stay as they are. Without an open node this is an error, and nothing
    /// changes.
    pub fn end(&mut self) -> (r: Result<(), UiError>)
        requires
            old(self).wf(),
        ensures
            final(self).wf(),
            final(self).same_session(old(self)),
            same_but_geometry(final(self).nodes@, old(self).nodes@),
            match r {
                Err(e) => {
                    &&& e == UiError::NoOpenNode
                    &&& old(self).stack.len() == 0
                    &&& final(self).nodes@ == old(self).nodes@
                    &&& final(self).stack@ == old(self).stack@
                    &&& final(self).roots@ == old(self).roots@
                    &&& final(self).store@ == old(self).store@
                },
                Ok(_) => {
                    &&& old(self).stack.len() > 0
                    &&& final(self).stack@ == old(self).stack@.drop_last()
                    &&& fit_ok(final(self).nodes@, old(self).stack@.last() as int)
                    &&& if old(self).stack.len() == 1 {
                        &&& final(self).roots@ == old(self).roots@.push(old(self).stack@.last())
                        &&& forall|q: int|
                            old(self).stack@.last() <= q < final(self).nodes.len() ==> #[trigger] laid_out(
                                final(self).nodes@,
                                q,
                            )
                        &&& final(self).store@ == stored_range(
                            old(self).store@,
                            final(self).nodes@,
                            old(self).stack@.last() as int,
                            final(self).nodes.len() as int,
                        )
                        &&& forall|j: int|
                            0 <= j < old(self).stack@.last() ==> (#[trigger] final(self).nodes[j])
                                == old(self).nodes[j]
                    } else {
                        &&& final(self).roots@ == old(self).roots@
                        &&& final(self).store@ == old(self).store@
                        &&& crate::sizing::same_but_fit(
                            final(self).nodes@,
                            old(self).nodes@,
                            old(self).stack@.last() as int,
                        )
                    }
                },
            },
    {
        let ghost store0 = self.store@;
        let ghost before = self.nodes@;
        let ghost stack0 = self.stack@;
        let i: usize = match self.stack.pop() {
            Some(i) => i,
            None => {
                return Err(UiError::NoOpenNode);
            },
        };
        proof {
            assert(stack0[stack0.len() - 1] == i);
            assert(i < before.len());
            assert(self.stack@ =~= stack0.drop_last());
            crate::frame::lemma_top_parent_open(before, stack0);
        }
        measure(&mut self.nodes, i);
        let ghost measured = self.nodes@;
        proof {
            lemma_measured(store0, before, measured, stack0, self.frame);
        }
        if self.stack.len() == 0 {
            layout_subtree(&mut self.nodes, i);
            let ghost after = self.nodes@;
            proof {
                assert(stack0.drop_last() =~= Seq::<usize>::empty());
                assert forall|j: int| 0 <= j < after.len() implies !(#[trigger] after[j]).id.spec_is_null() by {
                    assert(!measured[j].id.spec_is_null());
                }
            }
            store_nodes(&mut self.store, &self.nodes, i);
            self.roots.push(i);
            proof {
                lemma_root_done(store0, measured, after, i as int, self.frame);
                assert forall|j: int| 0 <= j < i implies #[trigger] after[j] == before[j] by {
                    assert(crate::tree::node_wf(measured, j));
                    assert(measured[j] == before[j]);
                }
                assert forall|j: int| 0 <= j < after.len() implies #[trigger] after[j] == (Node {
                    fit: after[j].fit,
                    size: after[j].size,
                    pos: after[j].pos,
                    ..before[j]
                }) by {
                    assert(after[j] == (Node { size: after[j].size, pos: after[j].pos, ..measured[j] }));
                }
            }
        }
        Ok(())
    }

    /// Ends the frame: lists the rectangles of the frame's nodes, drops
    /// every node from the store that was not begun in this frame, and lets
    /// go of the press that a node held once no button is down. To end a
    /// frame while a node is open is an error, and nothing changes.
    pub fn end_frame(&mut self) -> (r: Result<(), UiError>)
        requires
            old(self).wf(),
        ensures
            final(self).wf(),
            final(self).nodes@ == old(self).nodes@,
            final(self).stack@ == old(self).stack@,
            final(self).roots@ == old(self).roots@,
            final(self).scopes@ == old(self).scopes@,
            final(self).frame == old(self).frame,
            final(self).mouse == old(self).mouse,
            final(self).input == old(self).input,
            final(self).pressed_before == old(self).pressed_before,
            final(self).hot_id == old(self).hot_id,
            final(self).tabbars@ == old(self).tabbars@,
            final(self).current_tabbar_id == old(self).current_tabbar_id,
            final(self).current_panel_id == old(self).current_panel_id,
            final(self).cursor_icon == old(self).cursor_icon,
            final(self).expect_drag == old(self).expect_drag,
            final(self).widget_data@ == old(self).widget_data@,
            final(self).theme == old(self).theme,
            match r {
                Err(e) => {
                    &&& e == UiError::UnbalancedFrame
                    &&& old(self).stack.len() > 0
                    &&& final(self).store@ == old(self).store@
                    &&& final(self).draw_list@ == old(self).draw_list@
                    &&& final(self).active_id == old(self).active_id
                },
                Ok(_) => {
                    &&& old(self).stack.len() == 0
                    &&& final(self).draw_list@ == emitted(old(self).nodes@, old(self).nodes.len() as int)
                    &&& final(self).store@ == NodeStore::pruned(old(self).store@, old(self).frame)
                    &&& forall|k: u64|
                        final(self).store@.contains_key(k) <==> crate::frame::has_id(
                            old(self).nodes@,
                            0,
                            old(self).nodes.len() as int,
                            k,
                        )
                    &&& final(self).active_id == (if old(self).input.spec_pressed(MouseButton::Left)
                        || old(self).input.spec_pressed(MouseButton::Right) || old(self).input.spec_pressed(MouseButton::Middle) {
                        old(self).active_id
                    } else {
                        Id(0)
                    })
                },
            },
    {
        if self.stack.len() > 0 {
            return Err(UiError::UnbalancedFrame);
        }
        let ghost store0 = self.store@;
        let ghost nodes = self.nodes@;
        self.draw_list = emit(&self.nodes);
        self.store.prune(self.frame);
        if !(self.input.pressed(MouseButton::Left) || self.input.pressed(MouseButton::Right)
            || self.input.pressed(MouseButton::Middle)) {
            self.active_id = Id(0);
        }
        proof {
            let store1 = self.store@;
            let n = nodes.len() as int;
            assert(crate::frame::done(nodes, self.stack@) == n);
            assert forall|j: int| 0 <= j < n implies #[trigger] crate::frame::accounted(
                store1,
                nodes,
                self.frame,
                n,
                j,
            ) by {
                assert(crate::frame::accounted(store0, nodes, self.frame, n, j));
                assert(!crate::frame::has_id(nodes, n, n, nodes[j].id.0));
            }
            assert forall|k: u64| store1.contains_key(k) <==> crate::frame::has_id(nodes, 0, n, k) by {
                if crate::frame::has_id(nodes, 0, n, k) {
                    let j = choose|j: int| 0 <= j < n && (#[trigger] nodes[j]).id == Id(k);
                    assert(crate::frame::accounted(store1, nodes, self.frame, n, j));
                }
            }
        }
        Ok(())
    }

    /// The rectangles of the frame that ended last, as a list of their own.
    pub fn finish(&self) -> (list: Vec<DrawRect>)
        ensures
            list@ == self.draw_list@,
    {
        let mut list: Vec<DrawRect> = Vec::new();
        let mut k: usize = 0;
        while k < self.draw_list.len()
            invariant
                k <= self.draw_list.len(),
                list@ == self.draw_list@.take(k as int),
            decreases self.draw_list.len() - k,
        {
            list.push(self.draw_list[k]);
            proof {
                assert(self.draw_list@.take(k as int + 1) =~= self.draw_list@.take(k as int).push(
                    self.draw_list@[k as int],
                ));
            }
            k = k + 1;
        }
        proof {
            assert(self.draw_list@.take(self.draw_list.len() as int) =~= self.draw_list@);
        }
        list
    }
}

/// Whether `a` differs from `b` in nothing but measured extents, sizes and
/// positions.
pub open spec fn same_but_geometry(a: Seq<Node>, b: Seq<Node>) -> bool {
    &&& a.len() == b.len()
    &&& forall|j: int|
        0 <= j < a.len() ==> #[trigger] a[j] == (Node {
            fit: a[j].fit,
            size: a[j].size,
            pos: a[j].pos,
            ..b[j]
        })
}

/// Puts the nodes from `lo` on into the store, one after the other.
pub fn store_nodes(store: &mut NodeStore, nodes: &Vec<Node>, lo: usize)
    requires
        old(store).wf(),
        tree_wf(nodes@),
        lo <= nodes.len(),
        forall|j: int| 0 <= j < nodes.len() ==> !(#[trigger] nodes[j]).id.spec_is_null(),
    ensures
        final(store).wf(),
        final(store)@ == stored_range(old(store)@, nodes@, lo as int, nodes.len() as int),
{
    let n: usize = nodes.len();
    let mut t: usize = lo;
    while t < n
        invariant
            store.wf(),
            n == nodes.len(),
            lo <= t <= n,
            tree_wf(nodes@),
            forall|j: int| 0 <= j < nodes.len() ==> !(#[trigger] nodes[j]).id.spec_is_null(),
            store@ == stored_range(old(store)@, nodes@, lo as int, t as int),
        decreases n - t,
    {
        let node = nodes[t];
        proof {
            assert(crate::tree::node_wf(nodes@, t as int));
        }
        let kept = store.insert(node);
        t = t + 1;
    }
}

/// The rectangles of the nodes that show, in the order of the nodes.
pub fn emit(nodes: &Vec<Node>) -> (list: Vec<DrawRect>)
    ensures
        list@ == emitted(nodes@, nodes.len() as int),
{
    let mut list: Vec<DrawRect> = Vec::new();
    let mut j: usize = 0;
    while j < nodes.len()
        invariant
            j <= nodes.len(),
            list@ == emitted(nodes@, j as int),
        decreases nodes.len() - j,
    {
        let node = nodes[j];
        let rect = node.rect();
        if (node.style.fill.is_some() || node.style.outline.is_some()) && !rect.is_empty() {
            list.push(
                DrawRect {
                    rect,
                    fill: node.style.fill,
                    outline: node.style.outline,
                    corner_radius: node.style.corner_radius,
                },
            );
        }
        j = j + 1;
    }
    list
}

} // verus!
