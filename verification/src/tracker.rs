//! Interaction: what the pointer does to a node, judged by where the node
//! was laid out last.

use crate::geom::Rect;
use crate::id::Id;
use crate::input_recorder::{MouseButton, MouseState, PerButton};
use crate::signal::{ButtonSignal, Signal};
use crate::ui::Context;
use vstd::prelude::*;

verus! {

/// Whether `button` is down now and was not when the frame before began.
pub open spec fn went_down(input: MouseState, before: PerButton<bool>, button: MouseButton) -> bool {
    input.spec_pressed(button) && !before.spec_get(button)
}

/// Whether `button` is up now and was down when the frame before began.
pub open spec fn went_up(input: MouseState, before: PerButton<bool>, button: MouseButton) -> bool {
    !input.spec_pressed(button) && before.spec_get(button)
}

/// Whether a press lands on a node in this frame: the pointer is over it
/// and some button went down.
pub open spec fn press_lands(input: MouseState, before: PerButton<bool>, over: bool) -> bool {
    over && (went_down(input, before, MouseButton::Left) || went_down(
        input,
        before,
        MouseButton::Right,
    ) || went_down(input, before, MouseButton::Middle))
}

/// What `button` does to the node `id`, where `over` says whether the
/// pointer is over the node and `active` is the node that has held the
/// press so far.
///
/// The node is pressed while the button is down over it. It holds the
/// press that lands on it, and keeps holding it while the button stays
/// down, wherever the pointer goes; a press that is held and has become a
/// drag makes the node dragged. The button is released on the node when it
/// goes up over it, and that is a click where the node held the press, a
/// double click where the press was a short double press.
pub open spec fn button_signal(
    input: MouseState,
    before: PerButton<bool>,
    active: Id,
    id: Id,
    over: bool,
    button: MouseButton,
) -> ButtonSignal {
    let down = input.spec_pressed(button);
    let landed = went_down(input, before, button) && over;
    let kept = down && before.spec_get(button) && active == id;
    let holds = landed || kept;
    let up = went_up(input, before, button) && over;
    let clicked = up && active == id;
    ButtonSignal {
        pressed: down && over,
        dragging: holds && input.spec_dragging(button),
        double_dragging: holds && input.spec_dragging(button) && input.spec_double_clicked(button),
        released: up,
        clicked,
        double_clicked: clicked && input.spec_double_released(button),
    }
}

impl Context {
    /// The rectangle by which the node `id` is judged: the one that the
    /// layout gave it last, or `rect` where the store does not hold the
    /// node.
    pub open spec fn rect_for(&self, id: Id, rect: Rect) -> Rect {
        if self.store@.contains_key(id.0) {
            self.store@[id.0].spec_rect()
        } else {
            rect
        }
    }

    /// The node that holds the press after `id` has been registered with
    /// the pointer over it or not.
    pub open spec fn active_after(&self, id: Id, over: bool) -> Id {
        if press_lands(self.input, self.pressed_before, over) {
            id
        } else {
            self.active_id
        }
    }

    /// Whether the node `id` is hovered: the pointer is over it, and no
    /// other node holds a press.
    pub open spec fn hovers(&self, id: Id, over: bool) -> bool {
        over && (self.active_after(id, over).spec_is_null() || self.active_after(id, over) == id)
    }

    /// Whether two sessions agree on everything but the hovered node and
    /// the node that holds the press.
    pub open spec fn same_but_focus(&self, other: &Context) -> bool {
        &&& self.store == other.store
        &&& self.nodes == other.nodes
        &&& self.stack == other.stack
        &&& self.roots == other.roots
        &&& self.scopes == other.scopes
        &&& self.frame == other.frame
        &&& self.mouse == other.mouse
        &&& self.input == other.input
        &&& self.pressed_before == other.pressed_before
        &&& self.draw_list == other.draw_list
        &&& self.tabbars == other.tabbars
        &&& self.current_tabbar_id == other.current_tabbar_id
        &&& self.current_panel_id == other.current_panel_id
        &&& self.cursor_icon == other.cursor_icon
        &&& self.expect_drag == other.expect_drag
        &&& self.widget_data == other.widget_data
        &&& self.theme == other.theme
    }

    /// What `button` does to the node `id`.
    fn button_signal_of(&self, id: Id, over: bool, button: MouseButton) -> (s: ButtonSignal)
        ensures
            s == button_signal(self.input, self.pressed_before, self.active_id, id, over, button),
    {
        let down = self.input.pressed(button);
        let was = self.pressed_before.get(button);
        let owns = self.active_id.0 == id.0;
        let landed = down && !was && over;
        let kept = down && was && owns;
        let holds = landed || kept;
        let up = !down && was && over;
        let clicked = up && owns;
        let dragging = holds && self.input.dragging(button);
        ButtonSignal {
            pressed: down && over,
            dragging,
            double_dragging: dragging && self.input.double_clicked(button),
            released: up,
            clicked,
            double_clicked: clicked && self.input.double_released(button),
        }
    }

    /// Registers the node `id` for interaction and says what the pointer
    /// does to it in this frame. The node is judged by the rectangle that
    /// the layout gave it last, which is the one of the frame before while
    /// the frame is under construction; `rect` stands in where the store
    /// does not hold the node. A node over which a press lands holds the
    /// press from now on, and a node that is hovered becomes the hot node:
    /// of several nodes under the pointer the one registered last wins.
    /// The reserved identity gets no signal and changes nothing.
    pub fn register(&mut self, id: Id, rect: Rect) -> (sig: Signal)
        ensures
            final(self).same_but_focus(old(self)),
            id.spec_is_null() ==> {
                &&& forall|b: MouseButton| #[trigger] sig.spec_button(b) == ButtonSignal::spec_none()
                &&& !sig.hovering
                &&& !sig.mouse_over
                &&& final(self).active_id == old(self).active_id
                &&& final(self).hot_id == old(self).hot_id
            },
            !id.spec_is_null() ==> {
                let over = old(self).rect_for(id, rect).spec_contains(old(self).input.mouse_pos);
                &&& forall|b: MouseButton| #[trigger]
                    sig.spec_button(b) == button_signal(
                        old(self).input,
                        old(self).pressed_before,
                        old(self).active_id,
                        id,
                        over,
                        b,
                    )
                &&& sig.mouse_over == over
                &&& sig.hovering == old(self).hovers(id, over)
                &&& final(self).active_id == old(self).active_after(id, over)
                &&& final(self).hot_id == (if old(self).hovers(id, over) {
                    id
                } else {
                    old(self).hot_id
                })
            },
            !sig.keyboard_activated,
    {
        if id.is_null() {
            return Signal::none();
        }
        let used = match self.store.get(id) {
            Some(node) => node.rect(),
            None => rect,
        };
        let over = used.contains(self.input.mouse_pos);
        let left = self.button_signal_of(id, over, MouseButton::Left);
        let right = self.button_signal_of(id, over, MouseButton::Right);
        let middle = self.button_signal_of(id, over, MouseButton::Middle);
        let lands = over && ((self.input.pressed(MouseButton::Left) && !self.pressed_before.get(
            MouseButton::Left,
        )) || (self.input.pressed(MouseButton::Right) && !self.pressed_before.get(
            MouseButton::Right,
        )) || (self.input.pressed(MouseButton::Middle) && !self.pressed_before.get(
            MouseButton::Middle,
        )));
        if lands {
            self.active_id = id;
        }
        let hovering = over && (self.active_id.is_null() || self.active_id.0 == id.0);
        if hovering {
            self.hot_id = id;
        }
        let sig = Signal {
            buttons: PerButton([left, right, middle]),
            hovering,
            mouse_over: over,
            keyboard_activated: false,
        };
        proof {
            assert forall|b: MouseButton| #[trigger]
                sig.spec_button(b) == button_signal(
                    old(self).input,
                    old(self).pressed_before,
                    old(self).active_id,
                    id,
                    over,
                    b,
                ) by {
                match b {
                    MouseButton::Left => {},
                    MouseButton::Right => {},
                    MouseButton::Middle => {},
                }
            }
        }
        sig
    }

    /// Registers a node that is judged by its laid-out rectangle alone: as
    /// long as the store does not hold the node, the pointer is nowhere
    /// near it.
    pub fn register_item(&mut self, id: Id) -> (sig: Signal)
        ensures
            final(self).same_but_focus(old(self)),
            !id.spec_is_null() ==> {
                let over = old(self).store@.contains_key(id.0) && old(self).store@[id.0].spec_rect().spec_contains(old(self).input.mouse_pos);
                &&& forall|b: MouseButton| #[trigger]
                    sig.spec_button(b) == button_signal(
                        old(self).input,
                        old(self).pressed_before,
                        old(self).active_id,
                        id,
                        over,
                        b,
                    )
                &&& sig.mouse_over == over
                &&& sig.hovering == old(self).hovers(id, over)
                &&& final(self).active_id == old(self).active_after(id, over)
                &&& final(self).hot_id == (if old(self).hovers(id, over) {
                    id
                } else {
                    old(self).hot_id
                })
            },
    {
        self.register(
            id,
            Rect { min: crate::geom::Point { x: 0, y: 0 }, max: crate::geom::Point { x: 0, y: 0 } },
        )
    }
}

} // verus!
