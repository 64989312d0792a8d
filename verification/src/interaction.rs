//! The context that every handler works in: the pointer model, the bus, and
//! the requests a handler leaves for the layout engine.

use vstd::prelude::*;
use crate::bus::{redraw_request, MessageBus};
use crate::element::ElementId;
use crate::events::{Event, Message, WindowEvent};
use crate::pointer::PointerState;

verus! {

/// A request to draw `element` at stacking level `z_order`.
#[derive(Clone, Copy, Debug, PartialEq, Eq, Structural)]
pub struct ZOrderChange {
    pub element: ElementId,
    pub z_order: i32,
}

/// Everything a handler may read or change besides its own element.
///
/// One context serves a whole editing session. It is handed to each handler
/// by reference; there is no hidden shared state.
pub struct InteractionContext {
    /// Capture and hover.
    pub pointer: PointerState,
    /// Events waiting to be delivered.
    pub bus: MessageBus,
    /// Stacking changes asked for since the layout engine last took them.
    pub stacking: Vec<ZOrderChange>,
}

/// The mathematical content of an [`InteractionContext`].
pub struct ContextView {
    pub pointer: PointerState,
    pub queue: Seq<Event>,
    pub stacking: Seq<ZOrderChange>,
}

impl ContextView {
    /// After `element` has taken the capture.
    pub open spec fn capture(self, element: ElementId) -> ContextView {
        ContextView { pointer: self.pointer.with_capture(element), ..self }
    }

    /// After `element` has given up the capture, if it held it.
    pub open spec fn release(self, element: ElementId) -> ContextView {
        ContextView { pointer: self.pointer.without_capture(element), ..self }
    }

    /// After hit-testing has found `element` under the cursor.
    pub open spec fn hover(self, element: ElementId) -> ContextView {
        ContextView { pointer: self.pointer.with_hover(element), ..self }
    }

    /// After `event` has been queued.
    pub open spec fn post(self, event: Event) -> ContextView {
        ContextView { queue: self.queue.push(event), ..self }
    }

    /// After `sender` has sent `message` to `target`.
    pub open spec fn emit(self, sender: ElementId, target: ElementId, message: Message) -> ContextView {
        self.post(Event::routed(sender, target, message))
    }

    /// After `sender` has asked for a redraw.
    pub open spec fn redraw(self, sender: ElementId) -> ContextView {
        self.post(redraw_request(sender))
    }

    /// After `element` has asked to be drawn at level `z_order`.
    pub open spec fn restack(self, element: ElementId, z_order: i32) -> ContextView {
        ContextView { stacking: self.stacking.push(ZOrderChange { element, z_order }), ..self }
    }
}

impl View for InteractionContext {
    type V = ContextView;

    open spec fn view(&self) -> ContextView {
        ContextView { pointer: self.pointer, queue: self.bus@, stacking: self.stacking@ }
    }
}

impl InteractionContext {
    /// A fresh context: nothing captured, the cursor over the root, nothing
    /// pending.
    pub fn new() -> (ctx: InteractionContext)
        ensures
            ctx@.pointer.captured == ElementId::none(),
            ctx@.pointer.hovered == ElementId::root_id(),
            ctx@.queue == Seq::<Event>::empty(),
            ctx@.stacking == Seq::<ZOrderChange>::empty(),
    {
        InteractionContext { pointer: PointerState::new(), bus: MessageBus::new(), stacking: Vec::new() }
    }

    /// The element that holds the pointer, or the null handle.
    pub fn captured(&self) -> (element: ElementId)
        ensures
            element == self@.pointer.captured,
    {
        self.pointer.captured
    }

    /// The topmost element under the cursor.
    pub fn hovered(&self) -> (element: ElementId)
        ensures
            element == self@.pointer.hovered,
    {
        self.pointer.hovered
    }

    /// Gives the capture to `element`, replacing any earlier holder.
    pub fn capture(&mut self, element: ElementId)
        ensures
            final(self)@ == old(self)@.capture(element),
    {
        self.pointer.capture(element);
    }

    /// Ends the capture if `element` holds it; otherwise does nothing.
    pub fn release(&mut self, element: ElementId)
        ensures
            final(self)@ == old(self)@.release(element),
    {
        self.pointer.release(element);
    }

    /// Records the result of hit-testing.
    pub fn set_hovered(&mut self, element: ElementId)
        ensures
            final(self)@ == old(self)@.hover(element),
    {
        self.pointer.set_hovered(element);
    }

    /// Queues `event` behind everything already pending.
    pub fn insert_event(&mut self, event: Event)
        ensures
            final(self)@ == old(self)@.post(event),
    {
        self.bus.insert_event(event);
    }

    /// Sends `message` from `sender` to `target`, and to no one else.
    pub fn emit(&mut self, sender: ElementId, target: ElementId, message: Message)
        ensures
            final(self)@ == old(self)@.emit(sender, target, message),
    {
        self.bus.emit(sender, target, message);
    }

    /// Asks, on behalf of `sender`, for the window to be drawn again.
    pub fn request_redraw(&mut self, sender: ElementId)
        ensures
            final(self)@ == old(self)@.redraw(sender),
    {
        self.bus.emit_to_root(sender, Message::Window(WindowEvent::Redraw));
    }

    /// Asks for `element` to be drawn at stacking level `z_order`.
    pub fn set_z_order(&mut self, element: ElementId, z_order: i32)
        ensures
            final(self)@ == old(self)@.restack(element, z_order),
    {
        self.stacking.push(ZOrderChange { element, z_order });
    }

    /// Hands the pending stacking changes to the caller, oldest first, and
    /// forgets them.
    pub fn take_stacking(&mut self) -> (changes: Vec<ZOrderChange>)
        ensures
            changes@ == old(self)@.stacking,
            final(self)@ == (ContextView { stacking: Seq::empty(), ..old(self)@ }),
    {
        let mut changes: Vec<ZOrderChange> = Vec::new();
        std::mem::swap(&mut changes, &mut self.stacking);
        changes
    }
}

} // verus!
