//! Typed events: what is delivered, to whom, and on whose behalf.

use vstd::prelude::*;
use crate::element::ElementId;
use crate::ui::NodeEvent;

verus! {

/// A button of the pointing device.
#[derive(Clone, Copy, Debug, PartialEq, Eq, Structural)]
pub enum MouseButton {
    Left,
    Right,
    Middle,
    Other(u16),
}

/// Raw pointer input, and the one request that elements address to the
/// window. Coordinates are not carried: geometry stays with the layout
/// engine, and no decision made here reads it.
#[derive(Clone, Copy, Debug, PartialEq, Eq, Structural)]
pub enum WindowEvent {
    /// A button was pressed.
    MouseDown(MouseButton),
    /// A button was released.
    MouseUp(MouseButton),
    /// The cursor moved.
    MouseMove,
    /// The wheel was turned.
    MouseScroll,
    /// The cursor left the bounds of the receiver.
    MouseOut,
    /// The window contents should be drawn again.
    Redraw,
}

/// Every kind of message that can travel on the bus.
#[derive(Clone, Copy, Debug, PartialEq, Eq, Structural)]
pub enum Message {
    Window(WindowEvent),
    Node(NodeEvent),
}

/// A message together with its routing: the element that sent it and the one
/// element it is delivered to.
#[derive(Clone, Copy, Debug, PartialEq, Eq, Structural)]
pub struct Event {
    /// The sender, or the null handle for input that comes from the device.
    pub origin: ElementId,
    /// The receiver.
    pub target: ElementId,
    /// The payload.
    pub message: Message,
}

impl Event {
    /// The event that carries `message` from `origin` to `target`.
    pub open spec fn routed(origin: ElementId, target: ElementId, message: Message) -> Event {
        Event { origin, target, message }
    }

    /// An event with the given payload that has neither sender nor receiver
    /// yet.
    pub fn new(message: Message) -> (event: Event)
        ensures
            event == Event::routed(ElementId::none(), ElementId::none(), message),
    {
        Event { origin: ElementId::null(), target: ElementId::null(), message }
    }

    /// The same event, addressed to `element`.
    pub fn target(self, element: ElementId) -> (event: Event)
        ensures
            event == Event::routed(self.origin, element, self.message),
    {
        Event { origin: self.origin, target: element, message: self.message }
    }

    /// The same event, sent on behalf of `element`.
    pub fn origin(self, element: ElementId) -> (event: Event)
        ensures
            event == Event::routed(element, self.target, self.message),
    {
        Event { origin: element, target: self.target, message: self.message }
    }
}

} // verus!
