//! The pointer as the input side reports it: where it is, which buttons are
//! down, where and when each press began.

use crate::geom::Point;
use vstd::prelude::*;

verus! {

/// A pointer button.
#[derive(Debug, Clone, Copy, PartialEq, Eq, PartialOrd, Ord, Hash, Structural)]
pub enum MouseButton {
    Left,
    Right,
    Middle,
}

impl MouseButton {
    /// The slot of this button in a `PerButton`.
    pub open spec fn spec_index(self) -> usize {
        match self {
            MouseButton::Left => 0,
            MouseButton::Right => 1,
            MouseButton::Middle => 2,
        }
    }

    /// The slot of this button in a `PerButton`.
    #[verifier::when_used_as_spec(spec_index)]
    pub fn index(self) -> (i: usize)
        ensures
            i == self.spec_index(),
            i < 3,
    {
        match self {
            MouseButton::Left => 0,
            MouseButton::Right => 1,
            MouseButton::Middle => 2,
        }
    }
}

/// One value for each pointer button.
#[derive(Debug, Copy, Clone, PartialEq)]
pub struct PerButton<T>(pub [T; 3]);

impl<T: Copy> PerButton<T> {
    /// The same value for every button.
    pub fn splat(v: T) -> (p: PerButton<T>)
        ensures
            forall|b: MouseButton| #[trigger] p.spec_get(b) == v,
    {
        PerButton([v, v, v])
    }

    /// The value kept for `button`.
    pub open spec fn spec_get(&self, button: MouseButton) -> T {
        self.0[button.spec_index() as int]
    }

    /// The value kept for `button`.
    #[verifier::when_used_as_spec(spec_get)]
    pub fn get(&self, button: MouseButton) -> (v: T)
        ensures
            v == self.spec_get(button),
    {
        self.0[button.index()]
    }

    /// Replaces the value kept for `button` and leaves the other two alone.
    pub fn set(&mut self, button: MouseButton, v: T)
        ensures
            final(self).spec_get(button) == v,
            forall|b: MouseButton| b != button ==> #[trigger] final(self).spec_get(b) == old(self).spec_get(b),
    {
        let i: usize = button.index();
        self.0[i] = v;
    }
}

/// What is known of one button.
#[derive(Clone, Copy, Debug, PartialEq, Eq, Structural)]
pub struct ButtonState {
    /// The button is down.
    pub pressed: bool,
    /// The press that is under way followed a short press closely.
    pub double_press: bool,
    /// The press that ended last was such a second press, and short itself.
    pub double_release: bool,
    /// Where the pointer was when the last press began.
    pub press_start_pos: Point,
    /// When the press under way began.
    pub press_time: Option<u64>,
    /// When the last press ended.
    pub last_release_time: Option<u64>,
    /// The last press that ended took no longer than the double-click window.
    pub last_press_was_short: bool,
    /// The pointer has left the drag threshold since the press began.
    pub dragging: bool,
}

/// Milliseconds from `earlier` to `now` on a monotonic clock, zero where
/// `earlier` is not in the past.
pub open spec fn spec_elapsed(now: u64, earlier: u64) -> u64 {
    if now >= earlier {
        (now - earlier) as u64
    } else {
        0
    }
}

/// Milliseconds from `earlier` to `now` on a monotonic clock, zero where
/// `earlier` is not in the past.
#[verifier::when_used_as_spec(spec_elapsed)]
pub fn elapsed(now: u64, earlier: u64) -> (d: u64)
    ensures
        d == spec_elapsed(now, earlier),
{
    if now >= earlier {
        now - earlier
    } else {
        0
    }
}

/// Whether `a` and `b` lie further apart than `threshold`, by straight-line
/// distance.
pub open spec fn further_than(a: Point, b: Point, threshold: u32) -> bool {
    (a.x - b.x) * (a.x - b.x) + (a.y - b.y) * (a.y - b.y) > threshold * threshold
}

/// The distance between two coordinates.
fn abs_diff(a: i64, b: i64) -> (d: u64)
    ensures
        d == if a >= b { a - b } else { b - a },
{
    if a >= b {
        (a as i128 - b as i128) as u64
    } else {
        (b as i128 - a as i128) as u64
    }
}

/// Whether `a` and `b` lie further apart than `threshold`.
pub fn is_further_than(a: Point, b: Point, threshold: u32) -> (r: bool)
    ensures
        r == further_than(a, b, threshold),
{
    let dx: u64 = abs_diff(a.x, b.x);
    let dy: u64 = abs_diff(a.y, b.y);
    let t: u64 = threshold as u64;
    proof {
        let ix = a.x - b.x;
        let iy = a.y - b.y;
        assert(ix * ix == dx * dx) by (nonlinear_arith)
            requires
                dx == ix || dx == -ix,
        ;
        assert(iy * iy == dy * dy) by (nonlinear_arith)
            requires
                dy == iy || dy == -iy,
        ;
        assert(dx * dx >= 0 && dy * dy >= 0) by (nonlinear_arith);
        assert(dx > t ==> dx * dx > t * t) by (nonlinear_arith)
            requires
                t >= 0,
        ;
        assert(dy > t ==> dy * dy > t * t) by (nonlinear_arith)
            requires
                t >= 0,
        ;
        assert(dx <= t ==> dx * dx <= t * t) by (nonlinear_arith)
            requires
                dx >= 0,
        ;
        assert(dy <= t ==> dy * dy <= t * t) by (nonlinear_arith)
            requires
                dy >= 0,
        ;
        assert(t * t <= 0xffff_ffff * 0xffff_ffff) by (nonlinear_arith)
            requires
                0 <= t <= 0xffff_ffff,
        ;
    }
    if dx > t || dy > t {
        true
    } else {
        let sx: u128 = (dx as u128) * (dx as u128);
        let sy: u128 = (dy as u128) * (dy as u128);
        let st: u128 = (t as u128) * (t as u128);
        sx + sy > st
    }
}

impl ButtonState {
    /// A button that was never pressed.
    pub open spec fn spec_idle() -> ButtonState {
        ButtonState {
            pressed: false,
            double_press: false,
            double_release: false,
            press_start_pos: Point { x: 0, y: 0 },
            press_time: None,
            last_release_time: None,
            last_press_was_short: false,
            dragging: false,
        }
    }

    /// A button that was never pressed.
    #[verifier::when_used_as_spec(spec_idle)]
    pub fn idle() -> (s: ButtonState)
        ensures
            s == ButtonState::spec_idle(),
    {
        ButtonState {
            pressed: false,
            double_press: false,
            double_release: false,
            press_start_pos: Point { x: 0, y: 0 },
            press_time: None,
            last_release_time: None,
            last_press_was_short: false,
            dragging: false,
        }
    }

    /// The state after the pointer has moved to `pos`: a press under way
    /// becomes a drag once the pointer is further from where the press began
    /// than `threshold`, and stays one.
    pub open spec fn after_move(self, pos: Point, threshold: u32) -> ButtonState {
        if self.pressed && !self.dragging && further_than(pos, self.press_start_pos, threshold) {
            ButtonState { dragging: true, ..self }
        } else {
            self
        }
    }

    /// The state after the button went down at `pos` and time `now`. The press
    /// counts as a double press when the press before it was short and ended
    /// no longer than `window` ago.
    pub open spec fn after_press(self, pos: Point, now: u64, window: u64) -> ButtonState {
        ButtonState {
            pressed: true,
            press_start_pos: pos,
            press_time: Some(now),
            dragging: false,
            double_press: match self.last_release_time {
                Some(t) => spec_elapsed(now, t) <= window && self.last_press_was_short,
                None => false,
            },
            double_release: false,
            ..self
        }
    }

    /// The state after the button went up at time `now`. The press that ends
    /// is short when it took no longer than `window`.
    pub open spec fn after_release(self, now: u64, window: u64) -> ButtonState {
        let short = match self.press_time {
            Some(t) => spec_elapsed(now, t) <= window,
            None => false,
        };
        ButtonState {
            pressed: false,
            dragging: false,
            last_press_was_short: short,
            double_release: self.double_press && short,
            last_release_time: Some(now),
            press_time: None,
            double_press: false,
            ..self
        }
    }

    /// The state after the input side has reported the button as `pressed` at
    /// time `now`, with the pointer at `pos`. A report that repeats what is
    /// known changes nothing.
    pub open spec fn after_report(self, pressed: bool, pos: Point, now: u64, window: u64) -> ButtonState {
        if pressed && !self.pressed {
            self.after_press(pos, now, window)
        } else if !pressed && self.pressed {
            self.after_release(now, window)
        } else {
            self
        }
    }
}

/// The pointer: its position now and one report ago, the state of each
/// button, and the two thresholds that turn presses into drags and double
/// clicks.
#[derive(Debug, Copy, Clone, PartialEq)]
pub struct MouseState {
    pub mouse_pos: Point,
    pub prev_pos: Point,
    pub buttons: PerButton<ButtonState>,
    /// The double-click window in milliseconds.
    pub double_click_time: u64,
    /// The distance in layout units beyond which a press becomes a drag.
    pub drag_threshold: u32,
}

impl Default for MouseState {
    /// A fresh pointer, as `new` makes it.
    fn default() -> (m: MouseState)
        ensures
            m.is_fresh(),
    {
        MouseState::new()
    }
}

impl MouseState {
    /// Whether this is a pointer at the origin with no button ever pressed,
    /// a double-click window of 150 ms and a drag threshold of 5 units.
    pub open spec fn is_fresh(&self) -> bool {
        &&& self.mouse_pos == (Point { x: 0, y: 0 })
        &&& self.prev_pos == (Point { x: 0, y: 0 })
        &&& forall|b: MouseButton| #[trigger] self.buttons.spec_get(b) == ButtonState::spec_idle()
        &&& self.double_click_time == 150
        &&& self.drag_threshold == 5
    }

    /// A pointer at the origin with no button down, a double-click window of
    /// 150 ms and a drag threshold of 5 units.
    pub fn new() -> (m: MouseState)
        ensures
            m.is_fresh(),
    {
        MouseState {
            mouse_pos: Point { x: 0, y: 0 },
            prev_pos: Point { x: 0, y: 0 },
            buttons: PerButton::splat(ButtonState::idle()),
            double_click_time: 150,
            drag_threshold: 5,
        }
    }

    /// Moves the pointer to `(x, y)`. The position before becomes the
    /// previous one, and every press under way that is now further than the
    /// drag threshold from where it began becomes a drag.
    pub fn set_mouse_pos(&mut self, x: i64, y: i64)
        ensures
            final(self).mouse_pos == (Point { x, y }),
            final(self).prev_pos == old(self).mouse_pos,
            final(self).double_click_time == old(self).double_click_time,
            final(self).drag_threshold == old(self).drag_threshold,
            forall|b: MouseButton| #[trigger]
                final(self).buttons.spec_get(b) == old(self).buttons.spec_get(b).after_move(
                    Point { x, y },
                    old(self).drag_threshold,
                ),
    {
        self.prev_pos = self.mouse_pos;
        self.mouse_pos = Point { x, y };
        self.update_drag(MouseButton::Left);
        self.update_drag(MouseButton::Right);
        self.update_drag(MouseButton::Middle);
    }

    /// Lets the press of one button become a drag where the pointer has left
    /// the threshold.
    fn update_drag(&mut self, button: MouseButton)
        ensures
            final(self).mouse_pos == old(self).mouse_pos,
            final(self).prev_pos == old(self).prev_pos,
            final(self).double_click_time == old(self).double_click_time,
            final(self).drag_threshold == old(self).drag_threshold,
            final(self).buttons.spec_get(button) == old(self).buttons.spec_get(button).after_move(
                old(self).mouse_pos,
                old(self).drag_threshold,
            ),
            forall|b: MouseButton| b != button ==> #[trigger] final(self).buttons.spec_get(b) == old(self).buttons.spec_get(b),
    {
        let state: ButtonState = self.buttons.get(button);
        if state.pressed && !state.dragging && is_further_than(
            self.mouse_pos,
            state.press_start_pos,
            self.drag_threshold,
        ) {
            self.buttons.set(button, ButtonState { dragging: true, ..state });
        }
    }

    /// Reports `button` as down or up at time `now`, in milliseconds on a
    /// monotonic clock. Only a change of state has an effect: a press records
    /// where and when it began and whether it follows a short press within
    /// the double-click window; a release records when it came and whether
    /// the press it ends was short.
    pub fn set_button_press(&mut self, button: MouseButton, pressed: bool, now: u64)
        ensures
            final(self).mouse_pos == old(self).mouse_pos,
            final(self).prev_pos == old(self).prev_pos,
            final(self).double_click_time == old(self).double_click_time,
            final(self).drag_threshold == old(self).drag_threshold,
            final(self).buttons.spec_get(button) == old(self).buttons.spec_get(button).after_report(
                pressed,
                old(self).mouse_pos,
                now,
                old(self).double_click_time,
            ),
            forall|b: MouseButton| b != button ==> #[trigger] final(self).buttons.spec_get(b) == old(self).buttons.spec_get(b),
    {
        let state: ButtonState = self.buttons.get(button);
        let was_pressed = state.pressed;
        if pressed && !was_pressed {
            let double_press = match state.last_release_time {
                Some(last_release) => elapsed(now, last_release) <= self.double_click_time
                    && state.last_press_was_short,
                None => false,
            };
            self.buttons.set(
                button,
                ButtonState {
                    pressed: true,
                    press_start_pos: self.mouse_pos,
                    press_time: Some(now),
                    dragging: false,
                    double_press,
                    double_release: false,
                    ..state
                },
            );
        } else if !pressed && was_pressed {
            let short = match state.press_time {
                Some(press_time) => elapsed(now, press_time) <= self.double_click_time,
                None => false,
            };
            self.buttons.set(
                button,
                ButtonState {
                    pressed: false,
                    dragging: false,
                    last_press_was_short: short,
                    double_release: state.double_press && short,
                    last_release_time: Some(now),
                    press_time: None,
                    double_press: false,
                    ..state
                },
            );
        }
    }

    /// How far the pointer moved with the last report, saturating.
    pub fn drag_delta(&self) -> (d: Point)
        ensures
            d.x == crate::geom::sat(self.mouse_pos.x - self.prev_pos.x),
            d.y == crate::geom::sat(self.mouse_pos.y - self.prev_pos.y),
    {
        Point {
            x: crate::geom::sat_sub(self.mouse_pos.x, self.prev_pos.x),
            y: crate::geom::sat_sub(self.mouse_pos.y, self.prev_pos.y),
        }
    }

    /// Whether `button` is down.
    pub open spec fn spec_pressed(&self, button: MouseButton) -> bool {
        self.buttons.spec_get(button).pressed
    }

    /// Whether `button` is down.
    #[verifier::when_used_as_spec(spec_pressed)]
    pub fn pressed(&self, button: MouseButton) -> (r: bool)
        ensures
            r == self.spec_pressed(button),
    {
        self.buttons.get(button).pressed
    }

    /// Whether the press of `button` has become a drag.
    pub open spec fn spec_dragging(&self, button: MouseButton) -> bool {
        self.buttons.spec_get(button).dragging
    }

    /// Whether the press of `button` has become a drag.
    #[verifier::when_used_as_spec(spec_dragging)]
    pub fn dragging(&self, button: MouseButton) -> (r: bool)
        ensures
            r == self.spec_dragging(button),
    {
        self.buttons.get(button).dragging
    }

    /// Where the pointer was when the last press of `button` began.
    pub open spec fn spec_drag_start(&self, button: MouseButton) -> Point {
        self.buttons.spec_get(button).press_start_pos
    }

    /// Where the pointer was when the last press of `button` began.
    #[verifier::when_used_as_spec(spec_drag_start)]
    pub fn drag_start(&self, button: MouseButton) -> (p: Point)
        ensures
            p == self.spec_drag_start(button),
    {
        self.buttons.get(button).press_start_pos
    }

    /// Whether `button` is down and went down less than 16 ms before `now`.
    pub fn just_pressed(&self, button: MouseButton, now: u64) -> (r: bool)
        ensures
            r == (self.buttons.spec_get(button).pressed && match self.buttons.spec_get(button).press_time {
                Some(t) => spec_elapsed(now, t) < 16,
                None => false,
            }),
    {
        let state: ButtonState = self.buttons.get(button);
        state.pressed && match state.press_time {
            Some(t) => elapsed(now, t) < 16,
            None => false,
        }
    }

    /// Whether the press of `button` that is under way is a double press.
    pub open spec fn spec_double_clicked(&self, button: MouseButton) -> bool {
        self.buttons.spec_get(button).double_press
    }

    /// Whether the press of `button` that is under way is a double press.
    #[verifier::when_used_as_spec(spec_double_clicked)]
    pub fn double_clicked(&self, button: MouseButton) -> (r: bool)
        ensures
            r == self.spec_double_clicked(button),
    {
        self.buttons.get(button).double_press
    }

    /// Whether the last press of `button` that ended was a double press and
    /// short itself.
    pub open spec fn spec_double_released(&self, button: MouseButton) -> bool {
        self.buttons.spec_get(button).double_release
    }

    /// Whether the last press of `button` that ended was a double press and
    /// short itself.
    #[verifier::when_used_as_spec(spec_double_released)]
    pub fn double_released(&self, button: MouseButton) -> (r: bool)
        ensures
            r == self.spec_double_released(button),
    {
        self.buttons.get(button).double_release
    }
}

} // verus!
