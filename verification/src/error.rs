//! The ways in which the calling code can misuse the engine.

use vstd::prelude::*;

verus! {

/// A mistake of the calling code. The call that reports one has changed
/// nothing.
#[derive(Debug, Clone, Copy, PartialEq, Eq, Structural)]
pub enum UiError {
    /// A frame was ended while nodes were still open.
    UnbalancedFrame,
    /// A node was ended, but none is open.
    NoOpenNode,
    /// The reserved identity was looked up.
    NullId,
    /// An identity was looked up that the store does not hold.
    UnknownId,
    /// A tab bar was ended or a tab declared, but no tab bar is open.
    NoOpenTabBar,
    /// A tab bar was ended, but the scope on top is not the tab bar's.
    ScopeMismatch,
}

} // verus!
