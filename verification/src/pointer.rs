//! The pointer model: which element holds the pointer and which one lies
//! under the cursor.

use vstd::prelude::*;
use crate::element::ElementId;

verus! {

/// Capture and hover, shared by all interactive elements.
///
/// At most one element holds the capture. While it does, pointer input goes
/// to it wherever the cursor is. `hovered` is maintained by hit-testing and
/// knows nothing of capture: it always names what is under the cursor.
#[derive(Clone, Copy, Debug, PartialEq, Eq, Structural)]
pub struct PointerState {
    /// The element that holds the pointer, or the null handle.
    pub captured: ElementId,
    /// The topmost element under the cursor.
    pub hovered: ElementId,
}

impl PointerState {
    /// The state after `element` has taken the capture. Whoever held it
    /// before loses it: captures do not stack.
    pub open spec fn with_capture(self, element: ElementId) -> PointerState {
        PointerState { captured: element, hovered: self.hovered }
    }

    /// The state after `element` has given up the capture. Nothing changes
    /// unless `element` is the holder.
    pub open spec fn without_capture(self, element: ElementId) -> PointerState {
        if self.captured == element {
            PointerState { captured: ElementId::none(), hovered: self.hovered }
        } else {
            self
        }
    }

    /// The state after hit-testing has found `element` under the cursor.
    pub open spec fn with_hover(self, element: ElementId) -> PointerState {
        PointerState { captured: self.captured, hovered: element }
    }

    /// The element that pointer input is delivered to: the holder of the
    /// capture if there is one, else the hovered element.
    pub open spec fn delivery_target(self) -> ElementId {
        if !self.captured.is_none() {
            self.captured
        } else {
            self.hovered
        }
    }

    /// The state at start-up: nothing is captured and the cursor is over the
    /// root.
    pub fn new() -> (pointer: PointerState)
        ensures
            pointer.captured == ElementId::none(),
            pointer.hovered == ElementId::root_id(),
    {
        PointerState { captured: ElementId::null(), hovered: ElementId::root() }
    }

    /// Gives the capture to `element`, replacing any earlier holder.
    pub fn capture(&mut self, element: ElementId)
        ensures
            *final(self) == old(self).with_capture(element),
    {
        self.captured = element;
    }

    /// Ends the capture if `element` holds it; otherwise does nothing.
    pub fn release(&mut self, element: ElementId)
        ensures
            *final(self) == old(self).without_capture(element),
    {
        if self.captured == element {
            self.captured = ElementId::null();
        }
    }

    /// Records the result of hit-testing.
    pub fn set_hovered(&mut self, element: ElementId)
        ensures
            *final(self) == old(self).with_hover(element),
    {
        self.hovered = element;
    }

    /// The element that the next pointer event goes to.
    pub fn target(&self) -> (element: ElementId)
        ensures
            element == self.delivery_target(),
    {
        if !self.captured.is_null() {
            self.captured
        } else {
            self.hovered
        }
    }
}

/// A release by the holder undoes its capture when nothing was captured
/// before.
pub proof fn lemma_capture_then_release(pointer: PointerState, element: ElementId)
    requires
        pointer.captured.is_none(),
    ensures
        pointer.with_capture(element).without_capture(element) == pointer,
{
}

/// A release by anyone but the holder changes nothing.
pub proof fn lemma_release_by_stranger(pointer: PointerState, element: ElementId)
    requires
        pointer.captured != element,
    ensures
        pointer.without_capture(element) == pointer,
{
}

/// While the capture is held, hit-testing does not change where pointer
/// input goes.
pub proof fn lemma_capture_bypasses_hover(pointer: PointerState, element: ElementId)
    requires
        !pointer.captured.is_none(),
    ensures
        pointer.with_hover(element).delivery_target() == pointer.captured,
{
}

} // verus!
