//! The widgets: each registers for interaction, declares its nodes, and
//! says what the pointer made of it.

use crate::color::RGBA;
use crate::error::UiError;
use crate::fxmap::{fx_get, fx_insert, fx_remove};
use crate::geom::{Axis, Point, Rect};
use crate::id::{spec_id_from_label, Id};
use crate::input_recorder::MouseButton;
use crate::node::{Node, Padding, SizingMode, Style};
use crate::tabbar::{TabBar, TabModel};
use crate::tracker::button_signal;
use crate::ui::{Context, CursorIcon};
use vstd::prelude::*;

verus! {

/// Whether the nodes `before` are still there in `after`, each with the
/// identity and the style it was declared with.
pub open spec fn extends(after: Seq<Node>, before: Seq<Node>) -> bool {
    &&& after.len() >= before.len()
    &&& forall|j: int|
        0 <= j < before.len() ==> (#[trigger] after[j]).id == before[j].id && after[j].style
            == before[j].style
}

/// The identities and styles with which the nodes from place `from` on were
/// declared, in their order.
pub open spec fn declared(nodes: Seq<Node>, from: int) -> Seq<(Id, Style)> {
    Seq::new((nodes.len() - from) as nat, |k: int| (nodes[from + k].id, nodes[from + k].style))
}

/// `a + b`, held at the largest 32-bit length.
pub fn add_len(a: u32, b: u32) -> (r: u32)
    ensures
        r == (if a + b > u32::MAX {
            u32::MAX as int
        } else {
            a + b
        }),
{
    if a > u32::MAX - b {
        u32::MAX
    } else {
        a + b
    }
}

/// `a * num / den`, rounded down, held at the largest 32-bit length.
pub open spec fn spec_scale_len(a: u32, num: u32, den: u32) -> u32 {
    if (a * num) / (den as int) > u32::MAX {
        u32::MAX
    } else {
        ((a * num) / (den as int)) as u32
    }
}

/// `a * num / den`, rounded down, held at the largest 32-bit length.
#[verifier::when_used_as_spec(spec_scale_len)]
pub fn scale_len(a: u32, num: u32, den: u32) -> (r: u32)
    requires
        den > 0,
    ensures
        r == spec_scale_len(a, num, den),
{
    proof {
        assert(0 <= a * num <= 0xffff_ffff * 0xffff_ffff) by (nonlinear_arith)
            requires
                0 <= a <= 0xffff_ffff,
                0 <= num <= 0xffff_ffff,
        ;
    }
    let scaled: u64 = (a as u64) * (num as u64) / (den as u64);
    if scaled > u32::MAX as u64 {
        u32::MAX
    } else {
        scaled as u32
    }
}

/// The space above and below a text of height `text_h` that is centred in a
/// line of height `line_h`: half of what the line has left, rounded down.
pub open spec fn spec_centre_pad(line_h: u32, text_h: u32) -> u32 {
    if line_h > text_h {
        ((line_h - text_h) / 2) as u32
    } else {
        0
    }
}

/// The space above and below a text that is centred in a line.
#[verifier::when_used_as_spec(spec_centre_pad)]
pub fn centre_pad(line_h: u32, text_h: u32) -> (r: u32)
    ensures
        r == spec_centre_pad(line_h, text_h),
{
    if line_h > text_h {
        (line_h - text_h) / 2
    } else {
        0
    }
}

/// A node of fixed size with a fill and rounded corners.
pub open spec fn spec_block(w: u32, h: u32, fill: RGBA, radius: u32) -> Style {
    Style {
        sizing_x: SizingMode::Fixed(w),
        sizing_y: SizingMode::Fixed(h),
        fill: Some(fill),
        corner_radius: radius,
        ..Style::spec_plain()
    }
}

/// A node of fixed size with a fill and rounded corners.
#[verifier::when_used_as_spec(spec_block)]
pub fn block(w: u32, h: u32, fill: RGBA, radius: u32) -> (s: Style)
    ensures
        s == spec_block(w, h, fill, radius),
{
    Style {
        sizing_x: SizingMode::Fixed(w),
        sizing_y: SizingMode::Fixed(h),
        fill: Some(fill),
        corner_radius: radius,
        ..Style::plain()
    }
}

impl Context {
    /// Whether the pointer is over the node `id` as it was laid out last.
    pub open spec fn item_over(&self, id: Id) -> bool {
        self.store@.contains_key(id.0) && self.store@[id.0].spec_rect().spec_contains(
            self.input.mouse_pos,
        )
    }

    /// Whether the last press of the left button began outside the node
    /// `id` as it was laid out last.
    pub open spec fn began_outside(&self, id: Id) -> bool {
        !(self.store@.contains_key(id.0) && self.store@[id.0].spec_rect().spec_contains(
            self.input.spec_drag_start(MouseButton::Left),
        ))
    }

    /// What the left button does to the item `id`.
    pub open spec fn item_signal(&self, id: Id) -> crate::signal::ButtonSignal {
        button_signal(
            self.input,
            self.pressed_before,
            self.active_id,
            id,
            self.item_over(id),
            MouseButton::Left,
        )
    }

    /// Whether the last press of the left button began outside the node
    /// `id` as it was laid out last.
    pub fn press_began_outside(&self, id: Id) -> (r: bool)
        ensures
            r == self.began_outside(id),
    {
        match self.store.get(id) {
            Some(node) => !node.rect().contains(self.input.drag_start(MouseButton::Left)),
            None => true,
        }
    }

    /// Whether two sessions agree on what a frame's declarations leave
    /// alone: the scopes, the frame count, the pointer, the last list of
    /// rectangles, the tab bars, the widgets' own state and the theme.
    pub open spec fn same_inputs(&self, other: &Context) -> bool {
        &&& self.scopes@ == other.scopes@
        &&& self.frame == other.frame
        &&& self.mouse == other.mouse
        &&& self.input == other.input
        &&& self.pressed_before == other.pressed_before
        &&& self.draw_list@ == other.draw_list@
        &&& self.tabbars@ == other.tabbars@
        &&& self.current_tabbar_id == other.current_tabbar_id
        &&& self.current_panel_id == other.current_panel_id
        &&& self.cursor_icon == other.cursor_icon
        &&& self.expect_drag == other.expect_drag
        &&& self.widget_data@ == other.widget_data@
        &&& self.theme == other.theme
    }

    /// Whether the hot node and the node that holds the press are as they
    /// are after the item `id` has been registered in `before`.
    pub open spec fn focus_after(&self, before: &Context, id: Id) -> bool {
        &&& self.active_id == before.active_after(id, before.item_over(id))
        &&& self.hot_id == (if before.hovers(id, before.item_over(id)) {
            id
        } else {
            before.hot_id
        })
    }

    /// Whether this session is `before` with one more node open, declared
    /// with `id` and `style`.
    pub open spec fn opened(&self, before: &Context, id: Id, style: Style) -> bool {
        &&& self.stack@ == before.stack@.push(before.nodes.len())
        &&& self.nodes.len() == before.nodes.len() + 1
        &&& extends(self.nodes@, before.nodes@)
        &&& self.nodes[before.nodes.len() as int].id == id
        &&& self.nodes[before.nodes.len() as int].style == style
        &&& self.same_session(before)
    }

    /// Whether this session is `before` with the innermost open node ended.
    pub open spec fn closed(&self, before: &Context) -> bool {
        &&& self.stack@ == before.stack@.drop_last()
        &&& self.nodes.len() == before.nodes.len()
        &&& extends(self.nodes@, before.nodes@)
        &&& self.same_session(before)
    }

    /// Begins a node, as `begin_id` does.
    pub fn open(&mut self, id: Id, style: Style)
        requires
            old(self).wf(),
            !id.spec_is_null(),
        ensures
            final(self).wf(),
            final(self).opened(old(self), id, style),
    {
        self.begin_id(id, style);
        proof {
            let n = old(self).nodes.len() as int;
            assert forall|j: int| 0 <= j < n implies (#[trigger] self.nodes@[j]).id == old(self).nodes@[j].id && self.nodes@[j].style == old(self).nodes@[j].style by {
                assert(crate::tree::same_but_links(self.nodes@[j], old(self).nodes@[j]));
            }
        }
    }

    /// Ends the innermost open node, as `end` does.
    pub fn close(&mut self)
        requires
            old(self).wf(),
            old(self).stack.len() > 0,
        ensures
            final(self).wf(),
            final(self).closed(old(self)),
    {
        let r = self.end();
        proof {
            let n = old(self).nodes.len() as int;
            assert forall|j: int| 0 <= j < n implies (#[trigger] self.nodes@[j]).id == old(self).nodes@[j].id && self.nodes@[j].style == old(self).nodes@[j].style by {
                assert(self.nodes@[j] == (Node {
                    fit: self.nodes@[j].fit,
                    size: self.nodes@[j].size,
                    pos: self.nodes@[j].pos,
                    ..old(self).nodes@[j]
                }));
            }
        }
    }

    /// Whether this session is `before` with one more node declared and
    /// ended, with `id` and `style`.
    pub open spec fn added(&self, before: &Context, id: Id, style: Style) -> bool {
        &&& self.stack@ == before.stack@
        &&& self.nodes.len() == before.nodes.len() + 1
        &&& extends(self.nodes@, before.nodes@)
        &&& self.nodes[before.nodes.len() as int].id == id
        &&& self.nodes[before.nodes.len() as int].style == style
        &&& self.same_session(before)
    }

    /// Declares a node without children under the identity `id`.
    pub fn leaf_id(&mut self, id: Id, style: Style)
        requires
            old(self).wf(),
            !id.spec_is_null(),
        ensures
            final(self).wf(),
            final(self).added(old(self), id, style),
    {
        self.open(id, style);
        self.close();
        proof {
            assert(self.stack@ =~= old(self).stack@);
        }
    }

    /// Declares a node without children: begins it and ends it.
    pub fn leaf(&mut self, label: &str, style: Style) -> (id: Id)
        requires
            old(self).wf(),
        ensures
            final(self).wf(),
            id == spec_id_from_label(old(self).scope_top(), label@),
            final(self).added(old(self), id, style),
    {
        let id = self.gen_id(label);
        self.leaf_id(id, style);
        id
    }

    /// The style of a button with a label of the given size, in the state
    /// that the pointer puts it in: as high as a line, as wide as the text
    /// and the space that centres the text on both sides; in the pressed
    /// colour while it is pressed with a press that began on it, else in
    /// the hover colour while hovered, else in its own.
    pub open spec fn button_style(&self, id: Id, text_w: u32, text_h: u32) -> Style {
        let pad = spec_centre_pad(self.theme.line_height, text_h);
        let w = if text_w + pad + pad > u32::MAX {
            u32::MAX
        } else {
            (text_w + pad + pad) as u32
        };
        let over = self.item_over(id);
        let col = if self.item_signal(id).pressed && !self.began_outside(id) {
            self.theme.btn_press
        } else if self.hovers(id, over) {
            self.theme.btn_hover
        } else {
            self.theme.btn_default
        };
        spec_block(w, self.theme.line_height, col, self.theme.btn_corner_radius)
    }

    /// A button with the label `label`, whose text measures `text_w` by
    /// `text_h`. The result says whether the button was triggered: the left
    /// button went up over it after a press that began on it.
    pub fn button(&mut self, label: &str, text_w: u32, text_h: u32) -> (hit: bool)
        requires
            old(self).wf(),
        ensures
            final(self).wf(),
            hit == (old(self).item_signal(spec_id_from_label(old(self).scope_top(), label@)).released
                && !old(self).began_outside(spec_id_from_label(old(self).scope_top(), label@))),
            final(self).stack@ == old(self).stack@,
            final(self).same_inputs(old(self)),
            final(self).focus_after(old(self), spec_id_from_label(old(self).scope_top(), label@)),
            final(self).nodes.len() == old(self).nodes.len() + 1,
            extends(final(self).nodes@, old(self).nodes@),
            final(self).nodes[old(self).nodes.len() as int].id == spec_id_from_label(
                old(self).scope_top(),
                label@,
            ),
            final(self).nodes[old(self).nodes.len() as int].style == old(self).button_style(
                spec_id_from_label(old(self).scope_top(), label@),
                text_w,
                text_h,
            ),
    {
        let id = self.gen_id(label);
        let outside = self.press_began_outside(id);
        let sig = self.register_item(id);
        let pad = centre_pad(self.theme.line_height, text_h);
        let w = add_len(add_len(text_w, pad), pad);
        let col = if sig.pressed() && !outside {
            self.theme.btn_press
        } else if sig.hovering() {
            self.theme.btn_hover
        } else {
            self.theme.btn_default
        };
        let style = block(w, self.theme.line_height, col, self.theme.btn_corner_radius);
        self.leaf(label, style);
        sig.released() && !outside
    }

    /// How the pointer colours a control: in the pressed colour while the
    /// left button is down over it, else in the hover colour while it is
    /// hovered, else in its own.
    pub open spec fn state_colour(&self, id: Id) -> RGBA {
        if self.item_signal(id).pressed {
            self.theme.btn_press
        } else if self.hovers(id, self.item_over(id)) {
            self.theme.btn_hover
        } else {
            self.theme.btn_default
        }
    }

    /// The style of a text of the given size: as large as the text, centred
    /// in the height of a line.
    pub open spec fn text_style(&self, text_w: u32, text_h: u32) -> Style {
        Style {
            sizing_x: SizingMode::Fit,
            sizing_y: SizingMode::Fit,
            content_w: text_w,
            content_h: text_h,
            padding: Padding {
                left: 0,
                right: 0,
                top: spec_centre_pad(self.theme.line_height, text_h),
                bottom: spec_centre_pad(self.theme.line_height, text_h),
            },
            ..Style::spec_plain()
        }
    }

    /// The style of a text of the given size.
    fn make_text_style(&self, text_w: u32, text_h: u32) -> (s: Style)
        ensures
            s == self.text_style(text_w, text_h),
    {
        let pad = centre_pad(self.theme.line_height, text_h);
        Style {
            sizing_x: SizingMode::Fit,
            sizing_y: SizingMode::Fit,
            content_w: text_w,
            content_h: text_h,
            padding: Padding { left: 0, right: 0, top: pad, bottom: pad },
            ..Style::plain()
        }
    }

    /// A row that fits its children, with the theme's spacing between them.
    pub open spec fn row_style(&self) -> Style {
        Style {
            sizing_x: SizingMode::Fit,
            sizing_y: SizingMode::Fit,
            axis: Axis::X,
            gap: self.theme.spacing,
            ..Style::spec_plain()
        }
    }

    /// A row that fits its children.
    fn make_row_style(&self) -> (s: Style)
        ensures
            s == self.row_style(),
    {
        Style {
            sizing_x: SizingMode::Fit,
            sizing_y: SizingMode::Fit,
            axis: Axis::X,
            gap: self.theme.spacing,
            ..Style::plain()
        }
    }

    /// A line of text that measures `text_w` by `text_h`, centred in the
    /// height of a line.
    pub fn text(&mut self, text: &str, text_w: u32, text_h: u32)
        requires
            old(self).wf(),
        ensures
            final(self).wf(),
            final(self).added(
                old(self),
                spec_id_from_label(old(self).scope_top(), text@),
                old(self).text_style(text_w, text_h),
            ),
    {
        let style = self.make_text_style(text_w, text_h);
        self.leaf(text, style);
    }

    /// The style of a horizontal separator: as wide as its parent lets it
    /// grow, `thickness` high, filled.
    pub open spec fn separator_style(thickness: u32, fill: RGBA) -> Style {
        Style {
            sizing_x: SizingMode::Grow,
            sizing_y: SizingMode::Fixed(thickness),
            fill: Some(fill),
            ..Style::spec_plain()
        }
    }

    /// A horizontal line across the space that its parent has left.
    pub fn separator_h(&mut self, thickness: u32, fill: RGBA)
        requires
            old(self).wf(),
        ensures
            final(self).wf(),
            final(self).added(
                old(self),
                spec_id_from_label(old(self).scope_top(), "##separator"@),
                Context::separator_style(thickness, fill),
            ),
    {
        let style = Style {
            sizing_x: SizingMode::Grow,
            sizing_y: SizingMode::Fixed(thickness),
            fill: Some(fill),
            ..Style::plain()
        };
        self.leaf("##separator", style);
    }

    /// The style of the box of a checkbox: a square as high as a line, in
    /// the colour of its state, with room for the mark inside.
    pub open spec fn checkbox_style(&self, id: Id) -> Style {
        let inset = self.theme.line_height * 15 / 100;
        Style {
            padding: Padding {
                left: inset as u32,
                right: inset as u32,
                top: inset as u32,
                bottom: inset as u32,
            },
            ..spec_block(
                self.theme.line_height,
                self.theme.line_height,
                self.state_colour(id),
                self.theme.btn_corner_radius,
            )
        }
    }

    /// The style of a checkbox's mark: it fills the box inside the padding.
    pub open spec fn mark_style(&self) -> Style {
        Style {
            sizing_x: SizingMode::Grow,
            sizing_y: SizingMode::Grow,
            fill: Some(self.theme.btn_press),
            corner_radius: self.theme.btn_corner_radius,
            ..Style::spec_plain()
        }
    }

    /// The nodes of a checkbox, as they are declared: the row, in it the box
    /// under the checkbox's own identity, in the box the mark while the
    /// value is set, and behind the box the text.
    pub open spec fn checkbox_nodes(&self, id: Id, on: bool, text_w: u32, text_h: u32) -> Seq<
        (Id, Style),
    > {
        seq![(spec_id_from_label(id, "row"@), self.row_style()), (id, self.checkbox_style(id))] + (
        if on {
            seq![(spec_id_from_label(id, "mark"@), self.mark_style())]
        } else {
            Seq::<(Id, Style)>::empty()
        }) + seq![(spec_id_from_label(id, "text"@), self.text_style(text_w, text_h))]
    }

    /// A checkbox with a label: a row of the box and the text. The value
    /// flips when the left button goes up over the box, and the result is
    /// the value as it is then.
    pub fn checkbox(&mut self, label: &str, b: &mut bool, text_w: u32, text_h: u32) -> (r: bool)
        requires
            old(self).wf(),
        ensures
            final(self).wf(),
            r == *final(b),
            *final(b) == (if old(self).item_signal(
                spec_id_from_label(old(self).scope_top(), label@),
            ).released {
                !*old(b)
            } else {
                *old(b)
            }),
            final(self).stack@ == old(self).stack@,
            final(self).same_inputs(old(self)),
            final(self).focus_after(old(self), spec_id_from_label(old(self).scope_top(), label@)),
            extends(final(self).nodes@, old(self).nodes@),
            declared(final(self).nodes@, old(self).nodes.len() as int) == old(self).checkbox_nodes(
                spec_id_from_label(old(self).scope_top(), label@),
                *final(b),
                text_w,
                text_h,
            ),
    {
        let id = self.gen_id(label);
        let sig = self.register_item(id);
        if sig.released() {
            *b = !*b;
        }
        let col = if sig.pressed() {
            self.theme.btn_press
        } else if sig.hovering() {
            self.theme.btn_hover
        } else {
            self.theme.btn_default
        };
        let side = self.theme.line_height;
        let inset = scale_len(side, 15, 100);
        let box_style = Style {
            padding: Padding::all(inset),
            ..block(side, side, col, self.theme.btn_corner_radius)
        };
        let mark = Style {
            sizing_x: SizingMode::Grow,
            sizing_y: SizingMode::Grow,
            fill: Some(self.theme.btn_press),
            corner_radius: self.theme.btn_corner_radius,
            ..Style::plain()
        };
        let row = self.make_row_style();
        let words = self.make_text_style(text_w, text_h);
        proof {
            assert(side * 15 <= 0xffff_ffff * 15) by (nonlinear_arith)
                requires
                    0 <= side <= 0xffff_ffff,
            ;
        }
        self.push_id(id);
        let row_id = self.gen_id("row");
        let mark_id = self.gen_id("mark");
        let text_id = self.gen_id("text");
        self.open(row_id, row);
        self.open(id, box_style);
        if *b {
            self.leaf_id(mark_id, mark);
        }
        self.close();
        self.leaf_id(text_id, words);
        self.close();
        self.pop_id();
        proof {
            assert(self.stack@ =~= old(self).stack@);
            assert(self.scopes@ =~= old(self).scopes@);
            let n = old(self).nodes.len() as int;
            let want = old(self).checkbox_nodes(id, *b, text_w, text_h);
            let got = declared(self.nodes@, n);
            assert(got.len() == want.len());
            assert(got[0] == want[0]);
            assert(got[1] == want[1]);
            assert(got[2] == want[2]);
            if *b {
                assert(got[3] == want[3]);
            }
            assert(got =~= want);
        }
        *b
    }

    /// The style of the rail of a switch: a line high and nine fifths of a
    /// line wide, with room around the knob. While the switch is off the
    /// rail has the hover colour where it is hovered and its own colour
    /// else; while it is on it has the knob's colour.
    pub open spec fn rail_style(&self, id: Id, on: bool) -> Style {
        let h = self.theme.line_height;
        let w = if (h * 9) / 5 > u32::MAX {
            u32::MAX
        } else {
            ((h * 9) / 5) as u32
        };
        let knob = ((h * 4) / 5) as u32;
        let pad = ((h - knob) / 2) as u32;
        let ground = if self.hovers(id, self.item_over(id)) {
            self.theme.btn_hover
        } else {
            self.theme.btn_default
        };
        Style {
            padding: Padding { left: pad, right: pad, top: pad, bottom: pad },
            axis: Axis::X,
            ..spec_block(
                w,
                h,
                if on {
                    self.theme.btn_press
                } else {
                    ground
                },
                self.theme.btn_corner_radius,
            )
        }
    }

    /// The style of the knob of a switch: a square of the knob's side, in
    /// the pressed colour while the switch is off, and in the colour that
    /// the rail would have while it is on.
    pub open spec fn knob_style(&self, id: Id, on: bool) -> Style {
        spec_block(
            self.knob_side(),
            self.knob_side(),
            if !on {
                self.theme.btn_press
            } else if self.hovers(id, self.item_over(id)) {
                self.theme.btn_hover
            } else {
                self.theme.btn_default
            },
            self.theme.btn_corner_radius,
        )
    }

    /// The nodes of a switch, as they are declared: the row, in it the rail
    /// under the switch's own identity, in the rail the knob, behind a
    /// spacer that grows while the switch is on, and behind the rail the
    /// text.
    pub open spec fn switch_nodes(&self, id: Id, on: bool, text_w: u32, text_h: u32) -> Seq<
        (Id, Style),
    > {
        seq![(spec_id_from_label(id, "row"@), self.row_style()), (id, self.rail_style(id, on))] + (
        if on {
            seq![
                (
                    spec_id_from_label(id, "spacer"@),
                    Style { sizing_x: SizingMode::Grow, ..Style::spec_plain() },
                ),
            ]
        } else {
            Seq::<(Id, Style)>::empty()
        }) + seq![
            (spec_id_from_label(id, "knob"@), self.knob_style(id, on)),
            (spec_id_from_label(id, "text"@), self.text_style(text_w, text_h)),
        ]
    }

    /// A switch with a label: a row of the rail and the text. The value
    /// flips when the left button goes up over the rail, and the result is
    /// the value as it is then.
    pub fn switch(&mut self, label: &str, b: &mut bool, text_w: u32, text_h: u32) -> (r: bool)
        requires
            old(self).wf(),
        ensures
            final(self).wf(),
            r == *final(b),
            *final(b) == (if old(self).item_signal(
                spec_id_from_label(old(self).scope_top(), label@),
            ).released {
                !*old(b)
            } else {
                *old(b)
            }),
            final(self).stack@ == old(self).stack@,
            final(self).same_inputs(old(self)),
            final(self).focus_after(old(self), spec_id_from_label(old(self).scope_top(), label@)),
            extends(final(self).nodes@, old(self).nodes@),
            declared(final(self).nodes@, old(self).nodes.len() as int) == old(self).switch_nodes(
                spec_id_from_label(old(self).scope_top(), label@),
                *final(b),
                text_w,
                text_h,
            ),
    {
        let id = self.gen_id(label);
        let sig = self.register_item(id);
        if sig.released() {
            *b = !*b;
        }
        let ground = if sig.hovering() {
            self.theme.btn_hover
        } else {
            self.theme.btn_default
        };
        let (rail_col, knob_col) = if *b {
            (self.theme.btn_press, ground)
        } else {
            (ground, self.theme.btn_press)
        };
        let h = self.theme.line_height;
        let w = scale_len(h, 9, 5);
        let knob = scale_len(h, 4, 5);
        proof {
            assert(h * 4 / 5 <= h) by (nonlinear_arith)
                requires
                    0 <= h,
            ;
        }
        let pad = (h - knob) / 2;
        let rail = Style {
            padding: Padding { left: pad, right: pad, top: pad, bottom: pad },
            axis: Axis::X,
            ..block(w, h, rail_col, self.theme.btn_corner_radius)
        };
        let knob_style = block(knob, knob, knob_col, self.theme.btn_corner_radius);
        let spacer = Style { sizing_x: SizingMode::Grow, ..Style::plain() };
        let row = self.make_row_style();
        let words = self.make_text_style(text_w, text_h);
        self.push_id(id);
        let row_id = self.gen_id("row");
        let spacer_id = self.gen_id("spacer");
        let knob_id = self.gen_id("knob");
        let text_id = self.gen_id("text");
        self.open(row_id, row);
        self.open(id, rail);
        if *b {
            self.leaf_id(spacer_id, spacer);
        }
        self.leaf_id(knob_id, knob_style);
        self.close();
        self.leaf_id(text_id, words);
        self.close();
        self.pop_id();
        proof {
            assert(self.stack@ =~= old(self).stack@);
            assert(self.scopes@ =~= old(self).scopes@);
            let n = old(self).nodes.len() as int;
            let want = old(self).switch_nodes(id, *b, text_w, text_h);
            let got = declared(self.nodes@, n);
            assert(got.len() == want.len());
            assert(got[0] == want[0]);
            assert(got[1] == want[1]);
            assert(got[2] == want[2]);
            assert(got[3] == want[3]);
            if *b {
                assert(got[4] == want[4]);
            }
            assert(got =~= want);
        }
        *b
    }

    /// The style of a collapsing header: as wide as its parent lets it
    /// grow, a line high, its text behind the space that centres it; in the
    /// pressed colour while it is open or pressed with a press that began
    /// on it, else in the hover colour while hovered, else in its own.
    pub open spec fn header_style(&self, id: Id, open: bool, text_h: u32) -> Style {
        let pad = spec_centre_pad(self.theme.line_height, text_h);
        Style {
            sizing_x: SizingMode::Grow,
            sizing_y: SizingMode::Fixed(self.theme.line_height),
            axis: Axis::X,
            padding: Padding { left: pad, right: pad, top: 0, bottom: 0 },
            fill: Some(
                if open || (self.item_signal(id).pressed && !self.began_outside(id)) {
                    self.theme.btn_press
                } else if self.hovers(id, self.item_over(id)) {
                    self.theme.btn_hover
                } else {
                    self.theme.btn_default
                },
            ),
            corner_radius: self.theme.btn_corner_radius,
            ..Style::spec_plain()
        }
    }

    /// A header that opens and closes what follows it. The value flips
    /// when the left button goes up over the header, and the result is the
    /// value as it is then. The header is declared under its own identity,
    /// and its text in it.
    pub fn collapsing_header(&mut self, label: &str, open: &mut bool, text_w: u32, text_h: u32) -> (r:
        bool)
        requires
            old(self).wf(),
        ensures
            final(self).wf(),
            r == *final(open),
            *final(open) == (if old(self).item_signal(
                spec_id_from_label(old(self).scope_top(), label@),
            ).released {
                !*old(open)
            } else {
                *old(open)
            }),
            final(self).stack@ == old(self).stack@,
            final(self).same_inputs(old(self)),
            final(self).focus_after(old(self), spec_id_from_label(old(self).scope_top(), label@)),
            extends(final(self).nodes@, old(self).nodes@),
            declared(final(self).nodes@, old(self).nodes.len() as int) == seq![
                (
                    spec_id_from_label(old(self).scope_top(), label@),
                    old(self).header_style(
                        spec_id_from_label(old(self).scope_top(), label@),
                        *final(open),
                        text_h,
                    ),
                ),
                (
                    spec_id_from_label(spec_id_from_label(old(self).scope_top(), label@), "text"@),
                    old(self).text_style(text_w, text_h),
                ),
            ],
    {
        let id = self.gen_id(label);
        let outside = self.press_began_outside(id);
        let sig = self.register_item(id);
        if sig.released() {
            *open = !*open;
        }
        let col = if *open || (sig.pressed() && !outside) {
            self.theme.btn_press
        } else if sig.hovering() {
            self.theme.btn_hover
        } else {
            self.theme.btn_default
        };
        let pad = centre_pad(self.theme.line_height, text_h);
        let header = Style {
            sizing_x: SizingMode::Grow,
            sizing_y: SizingMode::Fixed(self.theme.line_height),
            axis: Axis::X,
            padding: Padding { left: pad, right: pad, top: 0, bottom: 0 },
            fill: Some(col),
            corner_radius: self.theme.btn_corner_radius,
            ..Style::plain()
        };
        let words = self.make_text_style(text_w, text_h);
        self.push_id(id);
        let text_id = self.gen_id("text");
        self.open(id, header);
        self.leaf_id(text_id, words);
        self.close();
        self.pop_id();
        proof {
            assert(self.stack@ =~= old(self).stack@);
            assert(self.scopes@ =~= old(self).scopes@);
            let n = old(self).nodes.len() as int;
            let got = declared(self.nodes@, n);
            assert(got.len() == 2);
            assert(got[0] == (id, old(self).header_style(id, *open, text_h)));
            assert(got[1] == (text_id, old(self).text_style(text_w, text_h)));
            assert(got =~= seq![
                (id, old(self).header_style(id, *open, text_h)),
                (text_id, old(self).text_style(text_w, text_h)),
            ]);
        }
        *open
    }

    /// The side of a slider's knob: four fifths of a line.
    pub open spec fn knob_side(&self) -> u32 {
        ((self.theme.line_height * 4) / 5) as u32
    }

    /// The way that the knob of a slider of width `width` can go: the width
    /// less the knob and the room around it, and nothing where that is
    /// negative.
    pub open spec fn slider_travel(&self, width: u32) -> u32 {
        let room = self.knob_side() + (self.theme.line_height - self.knob_side());
        if width > room {
            (width - room) as u32
        } else {
            0
        }
    }

    /// Whether the pointer sets the slider `id` in this frame: the slider
    /// was laid out before, and the left button is down over it or it is
    /// dragged.
    pub open spec fn slider_is_set(&self, id: Id) -> bool {
        self.store@.contains_key(id.0) && (self.item_signal(id).pressed || self.item_signal(
            id,
        ).dragging)
    }

    /// Where the pointer puts the knob of the slider `id`, as a fraction of
    /// the knob's way: the distance from one knob's width behind the
    /// slider's left edge to the pointer, held between nothing and the
    /// whole way, over the way, which counts as one unit at least.
    pub open spec fn slider_pick(&self, id: Id, width: u32) -> (u32, u32) {
        let way = if self.slider_travel(width) > 1 {
            self.slider_travel(width)
        } else {
            1
        };
        let from = self.store@[id.0].pos.x + self.knob_side();
        let raw = self.input.mouse_pos.x - from;
        (
            if raw < 0 {
                0
            } else if raw > way {
                way
            } else {
                raw as u32
            },
            way,
        )
    }

    /// The fraction at which a slider shows its knob: where the pointer
    /// puts it while the pointer sets the slider, else the fraction `num`
    /// over `den` that the caller hands in, held at one; a fraction over
    /// nothing counts as nothing.
    pub open spec fn slider_shown(&self, id: Id, width: u32, num: u32, den: u32) -> (u32, u32) {
        if self.slider_is_set(id) {
            self.slider_pick(id, width)
        } else if den == 0 {
            (0, 1)
        } else if num > den {
            (den, den)
        } else {
            (num, den)
        }
    }

    /// The style of a slider's rail: `width` wide and a line high, with
    /// half the room that the knob leaves around it; in the pressed colour
    /// while the slider is dragged, else in the hover colour while hovered,
    /// else in its own.
    pub open spec fn slider_style(&self, id: Id, width: u32) -> Style {
        let pad = ((self.theme.line_height - self.knob_side()) / 2) as u32;
        Style {
            padding: Padding { left: pad, right: pad, top: pad, bottom: pad },
            axis: Axis::X,
            ..spec_block(
                width,
                self.theme.line_height,
                if self.item_signal(id).dragging {
                    self.theme.btn_press
                } else if self.hovers(id, self.item_over(id)) {
                    self.theme.btn_hover
                } else {
                    self.theme.btn_default
                },
                self.theme.btn_corner_radius,
            )
        }
    }

    /// The nodes of a slider, as they are declared: the row, in it the rail
    /// under the slider's own identity, in the rail a spacer as wide as the
    /// part of the knob's way that lies before the knob, then the knob, in
    /// the hover colour while the slider is dragged and in the pressed
    /// colour else, and behind the rail the text.
    pub open spec fn slider_nodes(
        &self,
        id: Id,
        width: u32,
        num: u32,
        den: u32,
        text_w: u32,
        text_h: u32,
    ) -> Seq<(Id, Style)> {
        seq![
            (spec_id_from_label(id, "row"@), self.row_style()),
            (id, self.slider_style(id, width)),
            (
                spec_id_from_label(id, "spacer"@),
                Style {
                    sizing_x: SizingMode::Fixed(
                        spec_scale_len(
                            self.slider_travel(width),
                            self.slider_shown(id, width, num, den).0,
                            self.slider_shown(id, width, num, den).1,
                        ),
                    ),
                    ..Style::spec_plain()
                },
            ),
            (
                spec_id_from_label(id, "knob"@),
                spec_block(
                    self.knob_side(),
                    self.knob_side(),
                    if self.item_signal(id).dragging {
                        self.theme.btn_hover
                    } else {
                        self.theme.btn_press
                    },
                    self.theme.btn_corner_radius,
                ),
            ),
            (spec_id_from_label(id, "text"@), self.text_style(text_w, text_h)),
        ]
    }

    /// A slider with a label: a row of the rail, which is `width` wide, and
    /// the text. The caller hands in where the knob stands, as the fraction
    /// `num` over `den` of the knob's way. While the left button is down
    /// over the slider, or the slider is dragged, the pointer sets the
    /// knob, and the result is the fraction at which it puts it; else there
    /// is no result, and none before the slider was laid out once. A slider that is hovered asks for the sideways
    /// pointer, and one that is pressed and not yet dragged expects a drag.
    pub fn slider(
        &mut self,
        label: &str,
        width: u32,
        num: u32,
        den: u32,
        text_w: u32,
        text_h: u32,
    ) -> (r: Option<(u32, u32)>)
        requires
            old(self).wf(),
        ensures
            final(self).wf(),
            r == (if old(self).slider_is_set(spec_id_from_label(old(self).scope_top(), label@)) {
                Some(
                    old(self).slider_pick(
                        spec_id_from_label(old(self).scope_top(), label@),
                        width,
                    ),
                )
            } else {
                None
            }),
            final(self).cursor_icon == (if old(self).hovers(
                spec_id_from_label(old(self).scope_top(), label@),
                old(self).item_over(spec_id_from_label(old(self).scope_top(), label@)),
            ) {
                CursorIcon::MoveH
            } else {
                old(self).cursor_icon
            }),
            final(self).expect_drag == (old(self).expect_drag || (old(self).item_signal(
                spec_id_from_label(old(self).scope_top(), label@),
            ).pressed && !old(self).item_signal(
                spec_id_from_label(old(self).scope_top(), label@),
            ).dragging)),
            final(self).focus_after(old(self), spec_id_from_label(old(self).scope_top(), label@)),
            final(self).stack@ == old(self).stack@,
            final(self).scopes@ == old(self).scopes@,
            final(self).widget_data@ == old(self).widget_data@,
            final(self).tabbars@ == old(self).tabbars@,
            final(self).input == old(self).input,
            final(self).pressed_before == old(self).pressed_before,
            extends(final(self).nodes@, old(self).nodes@),
            declared(final(self).nodes@, old(self).nodes.len() as int) == old(self).slider_nodes(
                spec_id_from_label(old(self).scope_top(), label@),
                width,
                num,
                den,
                text_w,
                text_h,
            ),
    {
        let id = self.gen_id(label);
        let left: Option<i64> = match self.store.get(id) {
            Some(node) => Some(node.pos.x),
            None => None,
        };
        let sig = self.register_item(id);
        let h = self.theme.line_height;
        let knob = scale_len(h, 4, 5);
        proof {
            assert(h * 4 / 5 <= h) by (nonlinear_arith)
                requires
                    0 <= h,
            ;
        }
        let rail_pad = h - knob;
        let room = add_len(knob, rail_pad);
        let travel: u32 = if width > room {
            width - room
        } else {
            0
        };
        let set = sig.pressed() || sig.dragging();
        let picked: Option<(u32, u32)> = match left {
            Some(x) => {
                if set {
                    let way: u32 = if travel > 1 {
                        travel
                    } else {
                        1
                    };
                    let raw: i128 = self.input.mouse_pos.x as i128 - (x as i128 + knob as i128);
                    let at: u32 = if raw < 0 {
                        0
                    } else if raw > way as i128 {
                        way
                    } else {
                        raw as u32
                    };
                    Some((at, way))
                } else {
                    None
                }
            },
            None => None,
        };
        let shown: (u32, u32) = match picked {
            Some(f) => f,
            None => {
                if den == 0 {
                    (0, 1)
                } else if num > den {
                    (den, den)
                } else {
                    (num, den)
                }
            },
        };
        if sig.hovering() {
            self.cursor_icon = CursorIcon::MoveH;
        }
        if sig.pressed() && !sig.dragging() {
            self.expect_drag = true;
        }
        let (rail_col, knob_col) = if sig.dragging() {
            (self.theme.btn_press, self.theme.btn_hover)
        } else if sig.hovering() {
            (self.theme.btn_hover, self.theme.btn_press)
        } else {
            (self.theme.btn_default, self.theme.btn_press)
        };
        let pad = rail_pad / 2;
        let rail = Style {
            padding: Padding { left: pad, right: pad, top: pad, bottom: pad },
            axis: Axis::X,
            ..block(width, h, rail_col, self.theme.btn_corner_radius)
        };
        let spacer = Style {
            sizing_x: SizingMode::Fixed(scale_len(travel, shown.0, shown.1)),
            ..Style::plain()
        };
        let knob_style = block(knob, knob, knob_col, self.theme.btn_corner_radius);
        let row = self.make_row_style();
        let words = self.make_text_style(text_w, text_h);
        self.push_id(id);
        let row_id = self.gen_id("row");
        let spacer_id = self.gen_id("spacer");
        let knob_id = self.gen_id("knob");
        let text_id = self.gen_id("text");
        self.open(row_id, row);
        self.open(id, rail);
        self.leaf_id(spacer_id, spacer);
        self.leaf_id(knob_id, knob_style);
        self.close();
        self.leaf_id(text_id, words);
        self.close();
        self.pop_id();
        proof {
            assert(self.stack@ =~= old(self).stack@);
            assert(self.scopes@ =~= old(self).scopes@);
            let n = old(self).nodes.len() as int;
            let want = old(self).slider_nodes(id, width, num, den, text_w, text_h);
            let got = declared(self.nodes@, n);
            assert(got.len() == want.len());
            assert(got[0] == want[0]);
            assert(got[1] == want[1]);
            assert(got[2] == want[2]);
            assert(got[3] == want[3]);
            assert(got[4] == want[4]);
            assert(got =~= want);
        }
        picked
    }

    /// The value that the session keeps for the widget `id`, `false` where
    /// it keeps none.
    pub open spec fn kept_value(&self, id: Id) -> bool {
        if self.widget_data@.contains_key(id.0) {
            self.widget_data@[id.0]
        } else {
            false
        }
    }

    /// The value that the session keeps for the widget `id`.
    fn load_value(&self, id: Id) -> (v: bool)
        ensures
            v == self.kept_value(id),
    {
        match fx_get(&self.widget_data, id.0) {
            Some(v) => *v,
            None => false,
        }
    }

    /// The value of a widget that the session keeps after a frame: the one
    /// before, flipped where the left button went up over the widget.
    pub open spec fn value_after(&self, id: Id) -> bool {
        if self.item_signal(id).released {
            !self.kept_value(id)
        } else {
            self.kept_value(id)
        }
    }

    /// Whether this session is `before` after a widget that keeps its own
    /// value has run: the value is kept under the widget's identity, the
    /// nodes of `before` are still there, and no node is left open.
    pub open spec fn kept_after(&self, before: &Context, id: Id, value: bool) -> bool {
        &&& self.widget_data@ == before.widget_data@.insert(id.0, value)
        &&& self.stack@ == before.stack@
        &&& self.scopes@ == before.scopes@
        &&& self.tabbars@ == before.tabbars@
        &&& self.current_tabbar_id == before.current_tabbar_id
        &&& self.input == before.input
        &&& self.pressed_before == before.pressed_before
        &&& self.frame == before.frame
        &&& self.focus_after(before, id)
        &&& extends(self.nodes@, before.nodes@)
    }

    /// A checkbox whose value the session keeps, under the identity of the
    /// label. It starts out unchecked.
    pub fn checkbox_intern(&mut self, label: &str, text_w: u32, text_h: u32) -> (r: bool)
        requires
            old(self).wf(),
        ensures
            final(self).wf(),
            r == old(self).value_after(spec_id_from_label(old(self).scope_top(), label@)),
            final(self).kept_after(
                old(self),
                spec_id_from_label(old(self).scope_top(), label@),
                r,
            ),
    {
        let id = self.gen_id(label);
        let mut toggle = self.load_value(id);
        self.checkbox(label, &mut toggle, text_w, text_h);
        fx_insert(&mut self.widget_data, id.0, toggle);
        toggle
    }

    /// A switch whose value the session keeps, under the identity of the
    /// label. It starts out off.
    pub fn switch_intern(&mut self, label: &str, text_w: u32, text_h: u32) -> (r: bool)
        requires
            old(self).wf(),
        ensures
            final(self).wf(),
            r == old(self).value_after(spec_id_from_label(old(self).scope_top(), label@)),
            final(self).kept_after(
                old(self),
                spec_id_from_label(old(self).scope_top(), label@),
                r,
            ),
    {
        let id = self.gen_id(label);
        let mut toggle = self.load_value(id);
        self.switch(label, &mut toggle, text_w, text_h);
        fx_insert(&mut self.widget_data, id.0, toggle);
        toggle
    }

    /// A collapsing header whose state the session keeps, under the
    /// identity of the label. It starts out closed.
    pub fn collapsing_header_intern(&mut self, label: &str, text_w: u32, text_h: u32) -> (r: bool)
        requires
            old(self).wf(),
        ensures
            final(self).wf(),
            r == old(self).value_after(spec_id_from_label(old(self).scope_top(), label@)),
            final(self).kept_after(
                old(self),
                spec_id_from_label(old(self).scope_top(), label@),
                r,
            ),
    {
        let id = self.gen_id(label);
        let mut open = self.load_value(id);
        self.collapsing_header(label, &mut open, text_w, text_h);
        fx_insert(&mut self.widget_data, id.0, open);
        open
    }

    /// The strip that the session keeps for `id` as a value, an idle strip
    /// without tabs where it keeps none.
    pub open spec fn bar_model(&self, id: Id) -> TabModel {
        if self.tabbars@.contains_key(id.0) {
            self.tabbars@[id.0]@
        } else {
            TabModel::empty()
        }
    }

    /// The style of a tab bar: a row as wide as its parent lets it grow and
    /// a line high.
    pub open spec fn bar_style(&self) -> Style {
        Style {
            sizing_x: SizingMode::Grow,
            sizing_y: SizingMode::Fixed(self.theme.line_height),
            axis: Axis::X,
            fill: Some(self.theme.panel_bg),
            ..Style::spec_plain()
        }
    }

    /// Begins a tab bar with the identity of `label`, which the session
    /// keeps from frame to frame. The bar takes over the rectangle that the
    /// layout gave its node last, lays its tabs out in it, becomes the
    /// current tab bar and the innermost scope, and its node stays open
    /// until `end_tabbar`.
    pub fn begin_tabbar(&mut self, label: &str)
        requires
            old(self).wf(),
        ensures
            final(self).wf(),
            final(self).current_tabbar_id == spec_id_from_label(old(self).scope_top(), label@),
            final(self).scopes@ == old(self).scopes@.push(
                spec_id_from_label(old(self).scope_top(), label@),
            ),
            final(self).tabbars@.dom() == old(self).tabbars@.dom().insert(
                spec_id_from_label(old(self).scope_top(), label@).0,
            ),
            forall|k: u64|
                k != spec_id_from_label(old(self).scope_top(), label@).0 ==> #[trigger] final(self).tabbars@[k] == old(self).tabbars@[k],
            final(self).bar_model(spec_id_from_label(old(self).scope_top(), label@)) == (TabModel {
                id: spec_id_from_label(old(self).scope_top(), label@),
                panel_id: old(self).current_panel_id,
                bar_rect: old(self).rect_for(
                    spec_id_from_label(old(self).scope_top(), label@),
                    Rect { min: Point { x: 0, y: 0 }, max: Point { x: 0, y: 0 } },
                ),
                ..old(self).bar_model(spec_id_from_label(old(self).scope_top(), label@))
            }).laid_out(),
            final(self).stack@ == old(self).stack@.push(old(self).nodes.len()),
            final(self).nodes.len() == old(self).nodes.len() + 1,
            extends(final(self).nodes@, old(self).nodes@),
            final(self).nodes[old(self).nodes.len() as int].id == spec_id_from_label(
                old(self).scope_top(),
                label@,
            ),
            final(self).nodes[old(self).nodes.len() as int].style == old(self).bar_style(),
            final(self).widget_data@ == old(self).widget_data@,
            final(self).input == old(self).input,
            final(self).pressed_before == old(self).pressed_before,
            final(self).active_id == old(self).active_id,
            final(self).hot_id == old(self).hot_id,
            final(self).frame == old(self).frame,
            final(self).theme == old(self).theme,
    {
        let id = self.gen_id(label);
        let rect = match self.store.get(id) {
            Some(node) => node.rect(),
            None => Rect { min: Point { x: 0, y: 0 }, max: Point { x: 0, y: 0 } },
        };
        let mut tb = match fx_remove(&mut self.tabbars, id.0) {
            Some(tb) => tb,
            None => TabBar::new(),
        };
        tb.id = id;
        tb.panel_id = self.current_panel_id;
        tb.bar_rect = rect;
        tb.layout_tabs();
        fx_insert(&mut self.tabbars, id.0, tb);
        self.current_tabbar_id = id;
        let style = Style {
            sizing_x: SizingMode::Grow,
            sizing_y: SizingMode::Fixed(self.theme.line_height),
            axis: Axis::X,
            fill: Some(self.theme.panel_bg),
            ..Style::plain()
        };
        self.push_id(id);
        self.open(id, style);
        proof {
            assert(self.tabbars@.dom() =~= old(self).tabbars@.dom().insert(id.0));
        }
    }

    /// Ends the current tab bar: closes its scope and its node. This is an
    /// error, and changes nothing, where no tab bar is current, where the
    /// innermost scope is not the tab bar's, or where no node is open.
    pub fn end_tabbar(&mut self) -> (r: Result<(), UiError>)
        requires
            old(self).wf(),
        ensures
            final(self).wf(),
            r == (if old(self).current_tabbar_id.spec_is_null() {
                Err::<(), UiError>(UiError::NoOpenTabBar)
            } else if old(self).scope_top() != old(self).current_tabbar_id {
                Err(UiError::ScopeMismatch)
            } else if old(self).stack.len() == 0 {
                Err(UiError::NoOpenNode)
            } else {
                Ok(())
            }),
            r is Err ==> {
                &&& final(self).same_session(old(self))
                &&& final(self).nodes@ == old(self).nodes@
                &&& final(self).stack@ == old(self).stack@
                &&& final(self).store@ == old(self).store@
                &&& final(self).roots@ == old(self).roots@
            },
            r is Ok ==> {
                &&& final(self).current_tabbar_id == Id(0)
                &&& final(self).scopes@ == old(self).scopes@.drop_last()
                &&& final(self).stack@ == old(self).stack@.drop_last()
                &&& final(self).nodes.len() == old(self).nodes.len()
                &&& extends(final(self).nodes@, old(self).nodes@)
                &&& final(self).tabbars@ == old(self).tabbars@
                &&& final(self).widget_data@ == old(self).widget_data@
                &&& final(self).input == old(self).input
                &&& final(self).pressed_before == old(self).pressed_before
                &&& final(self).active_id == old(self).active_id
                &&& final(self).hot_id == old(self).hot_id
                &&& final(self).frame == old(self).frame
            },
    {
        let cur = self.current_tabbar_id;
        if cur.is_null() {
            return Err(UiError::NoOpenTabBar);
        }
        let top = if self.scopes.len() > 0 {
            self.scopes[self.scopes.len() - 1]
        } else {
            Id(0)
        };
        if top.0 != cur.0 {
            return Err(UiError::ScopeMismatch);
        }
        if self.stack.len() == 0 {
            return Err(UiError::NoOpenNode);
        }
        self.pop_id();
        self.close();
        self.current_tabbar_id = Id(0);
        Ok(())
    }

    /// The width of a tab whose text measures `text_w` by `text_h`, in a
    /// strip of height `bar_h`: the text and the space that centres it, on
    /// both sides.
    pub open spec fn tab_width(bar_h: u32, text_w: u32, text_h: u32) -> u32 {
        let pad = spec_centre_pad(bar_h, text_h);
        if text_w + pad + pad > u32::MAX {
            u32::MAX
        } else {
            (text_w + pad + pad) as u32
        }
    }

    /// The style of a tab: as wide as `width` and as high as the strip, at
    /// the place that the strip gives it; in the hover colour while it is
    /// selected, else in the button colour while hovered, else in the
    /// panel's.
    pub open spec fn tab_style(&self, width: u32, bar_h: u32, selected: bool, hovered: bool, at: Point) -> Style {
        Style {
            fixed_pos: Some(at),
            ..spec_block(
                width,
                bar_h,
                if selected {
                    self.theme.btn_hover
                } else if hovered {
                    self.theme.btn_default
                } else {
                    self.theme.panel_bg
                },
                self.theme.btn_corner_radius,
            )
        }
    }

    /// Declares a tab of the current tab bar, whose text measures `text_w`
    /// by `text_h`, and says whether it is the selected one. The first tab
    /// that a bar ever gets is selected. A tab that the bar sees for the
    /// first time joins it at the end and is drawn from the next frame on.
    /// A tab that the bar has is registered with its rectangle in the bar,
    /// takes part in selecting and dragging as `TabBar::drag_step` says,
    /// and gets a node at the place that the bar gives it. Without a
    /// current tab bar this is an error, and nothing changes.
    pub fn tabitem(&mut self, label: &str, text_w: u32, text_h: u32) -> (r: Result<bool, UiError>)
        requires
            old(self).wf(),
        ensures
            final(self).wf(),
            final(self).stack@ == old(self).stack@,
            final(self).scopes@ == old(self).scopes@,
            final(self).widget_data@ == old(self).widget_data@,
            final(self).current_tabbar_id == old(self).current_tabbar_id,
            final(self).input == old(self).input,
            final(self).pressed_before == old(self).pressed_before,
            extends(final(self).nodes@, old(self).nodes@),
            old(self).current_tabbar_id.spec_is_null() || !old(self).tabbars@.contains_key(
                old(self).current_tabbar_id.0,
            ) ==> {
                &&& r == Err::<bool, UiError>(UiError::NoOpenTabBar)
                &&& final(self).tabbars@ == old(self).tabbars@
                &&& final(self).nodes@ == old(self).nodes@
                &&& final(self).active_id == old(self).active_id
                &&& final(self).hot_id == old(self).hot_id
            },
            !old(self).current_tabbar_id.spec_is_null() && old(self).tabbars@.contains_key(
                old(self).current_tabbar_id.0,
            ) ==> {
                let cur = old(self).current_tabbar_id;
                let id = spec_id_from_label(old(self).scope_top(), label@);
                let bar = old(self).tabbars@[cur.0]@;
                let width = Context::tab_width(
                    crate::ui_items::spec_len_of(crate::geom::sat(
                        bar.bar_rect.max.y - bar.bar_rect.min.y,
                    )),
                    text_w,
                    text_h,
                );
                let touched = bar.touched(id, width);
                &&& r == Ok::<bool, UiError>(touched.selected_tab_id == id)
                &&& final(self).tabbars@.dom() == old(self).tabbars@.dom()
                &&& forall|k: u64| k != cur.0 ==> #[trigger] final(self).tabbars@[k] == old(self).tabbars@[k]
                &&& if bar.has_tab(id) {
                    let indx = bar.place_of(id);
                    let over = old(self).rect_for(id, touched.tab_rect(indx)).spec_contains(
                        old(self).input.mouse_pos,
                    );
                    let sig = button_signal(
                        old(self).input,
                        old(self).pressed_before,
                        old(self).active_id,
                        id,
                        over,
                        MouseButton::Left,
                    );
                    &&& final(self).tabbars@[cur.0]@ == touched.after_drag(
                        indx,
                        sig.pressed,
                        sig.dragging,
                        old(self).active_after(id, over) == id,
                        old(self).input.spec_pressed(MouseButton::Left),
                        old(self).input.mouse_pos.x,
                    )
                    &&& final(self).active_id == old(self).active_after(id, over)
                    &&& final(self).nodes.len() == old(self).nodes.len() + 1
                    &&& final(self).nodes[old(self).nodes.len() as int].id == id
                    &&& final(self).nodes[old(self).nodes.len() as int].style == old(self).tab_style(
                        width,
                        crate::ui_items::spec_len_of(crate::geom::sat(
                            bar.bar_rect.max.y - bar.bar_rect.min.y,
                        )),
                        touched.selected_tab_id == id,
                        old(self).hovers(id, over),
                        Point {
                            x: crate::tabbar::held(
                                touched.item_x(
                                    indx,
                                    sig.pressed,
                                    sig.dragging,
                                    old(self).active_after(id, over) == id,
                                    old(self).input.spec_pressed(MouseButton::Left),
                                    old(self).input.mouse_pos.x,
                                ),
                                bar.bar_rect.min.x as int,
                                crate::geom::sat(bar.bar_rect.max.x - width),
                            ) as i64,
                            y: bar.bar_rect.min.y,
                        },
                    )
                } else {
                    &&& final(self).tabbars@[cur.0]@ == touched
                    &&& final(self).nodes@ == old(self).nodes@
                    &&& final(self).active_id == old(self).active_id
                }
            },
    {
        let cur = self.current_tabbar_id;
        if cur.is_null() {
            return Err(UiError::NoOpenTabBar);
        }
        let ghost bars0 = self.tabbars@;
        let mut tb = match fx_remove(&mut self.tabbars, cur.0) {
            Some(tb) => tb,
            None => {
                proof {
                    assert(self.tabbars@ =~= bars0);
                }
                return Err(UiError::NoOpenTabBar);
            },
        };
        let id = self.gen_id(label);
        let bar_h = len_of(tb.bar_rect.height());
        let pad = centre_pad(bar_h, text_h);
        let width = add_len(add_len(text_w, pad), pad);
        let ghost bar = tb@;
        let found = tb.touch(id, width);
        let ghost touched = tb@;
        let is_selected = tb.selected_tab_id.0 == id.0;
        proof {
            assert(bar == bars0[cur.0]@);
            if let Some(i) = found {
                assert(touched.tabs[i as int].width == width);
            }
        }
        match found {
            None => {},
            Some(indx) => {
                let rect = tb.tab_rect(indx);
                let sig = self.register(id, rect);
                let holds = self.active_id.0 == id.0;
                let down = self.input.pressed(MouseButton::Left);
                let x = tb.drag_step(
                    indx,
                    sig.pressed(),
                    sig.dragging(),
                    holds,
                    down,
                    self.input.mouse_pos.x,
                );
                let col = if is_selected {
                    self.theme.btn_hover
                } else if sig.hovering() {
                    self.theme.btn_default
                } else {
                    self.theme.panel_bg
                };
                let style = Style {
                    fixed_pos: Some(Point { x, y: tb.bar_rect.min.y }),
                    ..block(width, bar_h, col, self.theme.btn_corner_radius)
                };
                proof {
                    assert(tb.bar_rect == bar.bar_rect);
                    let over = old(self).rect_for(id, touched.tab_rect(indx as int)).spec_contains(
                        old(self).input.mouse_pos,
                    );
                    assert(sig.hovering == old(self).hovers(id, over));
                    assert(style == old(self).tab_style(
                        width,
                        bar_h,
                        is_selected,
                        sig.hovering,
                        Point { x, y: bar.bar_rect.min.y },
                    ));
                }
                self.leaf_id(id, style);
            },
        }
        fx_insert(&mut self.tabbars, cur.0, tb);
        proof {
            assert(self.tabbars@.dom() =~= bars0.dom());
        }
        Ok(is_selected)
    }
}

/// A resolved length as a declared one: held between zero and the largest
/// 32-bit length.
pub open spec fn spec_len_of(v: int) -> u32 {
    if v < 0 {
        0
    } else if v > u32::MAX {
        u32::MAX
    } else {
        v as u32
    }
}

/// A resolved length as a declared one.
pub fn len_of(v: i64) -> (r: u32)
    ensures
        r == spec_len_of(v as int),
{
    if v < 0 {
        0
    } else if v > u32::MAX as i64 {
        u32::MAX
    } else {
        v as u32
    }
}

} // verus!
