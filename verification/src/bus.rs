//! The message bus: a first-in, first-out queue of routed events.

use vstd::prelude::*;
use std::collections::VecDeque;
use crate::element::ElementId;
use crate::events::{Event, Message, WindowEvent};

verus! {

/// Pending events, oldest first.
pub struct MessageBus {
    queue: VecDeque<Event>,
}

impl View for MessageBus {
    type V = Seq<Event>;

    closed spec fn view(&self) -> Seq<Event> {
        self.queue@
    }
}

/// The request to draw the window again, as it is sent by `sender`.
pub open spec fn redraw_request(sender: ElementId) -> Event {
    Event::routed(sender, ElementId::root_id(), Message::Window(WindowEvent::Redraw))
}

impl MessageBus {
    /// A bus with nothing pending.
    pub fn new() -> (bus: MessageBus)
        ensures
            bus@ == Seq::<Event>::empty(),
    {
        MessageBus { queue: VecDeque::new() }
    }

    /// Queues `event` behind everything already pending.
    pub fn insert_event(&mut self, event: Event)
        ensures
            final(self)@ == old(self)@.push(event),
    {
        self.queue.push_back(event);
    }

    /// Sends `message` from `sender` to `target`, and to no one else.
    pub fn emit(&mut self, sender: ElementId, target: ElementId, message: Message)
        ensures
            final(self)@ == old(self)@.push(Event::routed(sender, target, message)),
    {
        self.queue.push_back(Event { origin: sender, target, message });
    }

    /// Sends `message` from `sender` to the root element.
    pub fn emit_to_root(&mut self, sender: ElementId, message: Message)
        ensures
            final(self)@ == old(self)@.push(Event::routed(sender, ElementId::root_id(), message)),
    {
        self.queue.push_back(Event { origin: sender, target: ElementId::root(), message });
    }

    /// Takes the oldest pending event off the bus.
    pub fn next_event(&mut self) -> (event: Option<Event>)
        ensures
            old(self)@.len() == 0 ==> event is None && final(self)@ == old(self)@,
            old(self)@.len() > 0 ==> event == Some(old(self)@[0]) && final(self)@ == old(self)@.skip(1),
    {
        let front = self.queue.pop_front();
        proof {
            if front is Some {
                assert(old(self)@.subrange(1, old(self)@.len() as int) =~= old(self)@.skip(1));
            }
        }
        front
    }

    /// The number of pending events.
    pub fn len(&self) -> (n: usize)
        ensures
            n == self@.len(),
    {
        self.queue.len()
    }

    /// Whether nothing is pending.
    pub fn is_empty(&self) -> (b: bool)
        ensures
            b == (self@.len() == 0),
    {
        self.queue.len() == 0
    }
}

} // verus!
