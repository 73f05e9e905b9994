//! What the pointer does to one node in one frame.

use crate::input_recorder::{MouseButton, PerButton};
use vstd::prelude::*;

verus! {

/// What one button does to a node.
#[derive(Debug, Clone, Copy, PartialEq, Eq, Structural)]
pub struct ButtonSignal {
    /// The button is down and the pointer is over the node.
    pub pressed: bool,
    /// The node holds the press and the press has become a drag.
    pub dragging: bool,
    /// As `dragging`, and the press is a double press.
    pub double_dragging: bool,
    /// The button went up over the node.
    pub released: bool,
    /// The button went up over the node that held the press.
    pub clicked: bool,
    /// As `clicked`, and the press was a short double press.
    pub double_clicked: bool,
}

impl ButtonSignal {
    /// The signal of a button that does nothing.
    pub open spec fn spec_none() -> ButtonSignal {
        ButtonSignal {
            pressed: false,
            dragging: false,
            double_dragging: false,
            released: false,
            clicked: false,
            double_clicked: false,
        }
    }

    /// The signal of a button that does nothing.
    #[verifier::when_used_as_spec(spec_none)]
    pub fn none() -> (s: ButtonSignal)
        ensures
            s == ButtonSignal::spec_none(),
    {
        ButtonSignal {
            pressed: false,
            dragging: false,
            double_dragging: false,
            released: false,
            clicked: false,
            double_clicked: false,
        }
    }
}

/// The interaction of the pointer with one node in one frame. It is derived
/// anew in every frame and never kept.
#[derive(Debug, Clone, Copy, PartialEq)]
pub struct Signal {
    pub buttons: PerButton<ButtonSignal>,
    /// The pointer is over the node and no other node holds a press.
    pub hovering: bool,
    /// The pointer is over the node.
    pub mouse_over: bool,
    /// The node was activated from the keyboard.
    pub keyboard_activated: bool,
}

impl Signal {
    /// What `button` does to the node.
    pub open spec fn spec_button(&self, button: MouseButton) -> ButtonSignal {
        self.buttons.spec_get(button)
    }

    /// What `button` does to the node.
    #[verifier::when_used_as_spec(spec_button)]
    pub fn button(&self, button: MouseButton) -> (s: ButtonSignal)
        ensures
            s == self.spec_button(button),
    {
        self.buttons.get(button)
    }

    /// The signal of a node that the pointer leaves alone.
    pub fn none() -> (s: Signal)
        ensures
            forall|b: MouseButton| #[trigger] s.spec_button(b) == ButtonSignal::spec_none(),
            !s.hovering,
            !s.mouse_over,
            !s.keyboard_activated,
    {
        Signal {
            buttons: PerButton::splat(ButtonSignal::none()),
            hovering: false,
            mouse_over: false,
            keyboard_activated: false,
        }
    }

    /// Whether the left button is down over the node.
    pub open spec fn spec_pressed(&self) -> bool {
        self.spec_button(MouseButton::Left).pressed
    }

    /// Whether the left button is down over the node.
    #[verifier::when_used_as_spec(spec_pressed)]
    pub fn pressed(&self) -> (r: bool)
        ensures
            r == self.spec_pressed(),
    {
        self.buttons.get(MouseButton::Left).pressed
    }

    /// Whether the node is dragged with the left button.
    pub open spec fn spec_dragging(&self) -> bool {
        self.spec_button(MouseButton::Left).dragging
    }

    /// Whether the node is dragged with the left button.
    #[verifier::when_used_as_spec(spec_dragging)]
    pub fn dragging(&self) -> (r: bool)
        ensures
            r == self.spec_dragging(),
    {
        self.buttons.get(MouseButton::Left).dragging
    }

    /// Whether the left button went up over the node.
    pub open spec fn spec_released(&self) -> bool {
        self.spec_button(MouseButton::Left).released
    }

    /// Whether the left button went up over the node.
    #[verifier::when_used_as_spec(spec_released)]
    pub fn released(&self) -> (r: bool)
        ensures
            r == self.spec_released(),
    {
        self.buttons.get(MouseButton::Left).released
    }

    /// Whether the node was clicked with the left button.
    pub open spec fn spec_clicked(&self) -> bool {
        self.spec_button(MouseButton::Left).clicked
    }

    /// Whether the node was clicked with the left button.
    #[verifier::when_used_as_spec(spec_clicked)]
    pub fn clicked(&self) -> (r: bool)
        ensures
            r == self.spec_clicked(),
    {
        self.buttons.get(MouseButton::Left).clicked
    }

    /// Whether the node was double-clicked with the left button.
    pub open spec fn spec_double_clicked(&self) -> bool {
        self.spec_button(MouseButton::Left).double_clicked
    }

    /// Whether the node was double-clicked with the left button.
    #[verifier::when_used_as_spec(spec_double_clicked)]
    pub fn double_clicked(&self) -> (r: bool)
        ensures
            r == self.spec_double_clicked(),
    {
        self.buttons.get(MouseButton::Left).double_clicked
    }

    /// Whether the pointer is over the node and no other node holds a press.
    pub fn hovering(&self) -> (r: bool)
        ensures
            r == self.hovering,
    {
        self.hovering
    }
}

} // verus!
