//! An editing session: the arena of elements, the context they share, and
//! the loop that delivers events until none is pending.
//!
//! Handlers may send further messages while they run. These are queued and
//! delivered in the order in which they were sent, and an input counts as
//! handled only when the queue has run empty. The loop is proved to
//! terminate: every event weighs more than all that its handler sends.
//!
//! Between two inputs a session is settled. Its records of connections then
//! agree: the wire of an input socket names the output that the socket names
//! as its peer, and a peer is always an output socket.

use vstd::prelude::*;
use crate::element::ElementId;
use crate::events::{Event, Message, MouseButton, WindowEvent};
use crate::interaction::{ContextView, InteractionContext, ZOrderChange};
use crate::ui::{ConnectionWidget, InputSocket, NodeEvent, NodeView, NodeWidget, OutputSocket};

verus! {

/// An interactive element, by kind.
#[derive(Clone, Copy, Debug, PartialEq, Eq, Structural)]
pub enum Element {
    /// An element that takes no part in the protocol, such as the root, a
    /// container or a label. It ignores whatever it is sent.
    Inert,
    /// The canvas view.
    View(NodeView),
    /// A node.
    Node(NodeWidget),
    /// An input socket.
    Input(InputSocket),
    /// An output socket.
    Output(OutputSocket),
    /// A wire.
    Connection(ConnectionWidget),
}

impl Element {
    /// The element and the context after the element, known as `entity`,
    /// has handled `event`.
    pub open spec fn handled(self, ctx: ContextView, entity: ElementId, event: Event) -> (
        Element,
        ContextView,
    ) {
        match self {
            Element::Inert => (self, ctx),
            Element::View(view) => {
                let (view, ctx) = view.handled(ctx, entity, event);
                (Element::View(view), ctx)
            },
            Element::Node(node) => {
                let (node, ctx) = node.handled(ctx, entity, event);
                (Element::Node(node), ctx)
            },
            Element::Input(socket) => {
                let (socket, ctx) = socket.handled(ctx, entity, event);
                (Element::Input(socket), ctx)
            },
            Element::Output(socket) => {
                let (socket, ctx) = socket.handled(ctx, entity, event);
                (Element::Output(socket), ctx)
            },
            Element::Connection(wire) => (Element::Connection(wire.handled(event)), ctx),
        }
    }

    /// Handles one event delivered to the element known as `entity`.
    pub fn on_event(&mut self, ctx: &mut InteractionContext, entity: ElementId, event: &Event)
        ensures
            (*final(self), final(ctx)@) == old(self).handled(old(ctx)@, entity, *event),
    {
        match self {
            Element::Inert => {},
            Element::View(view) => {
                view.on_event(ctx, entity, event);
            },
            Element::Node(node) => {
                node.on_event(ctx, entity, event);
            },
            Element::Input(socket) => {
                socket.on_event(ctx, entity, event);
            },
            Element::Output(socket) => {
                socket.on_event(ctx, entity, event);
            },
            Element::Connection(wire) => {
                wire.on_event(ctx, entity, event);
            },
        }
    }
}

/// The element that `id` names in `elements`; an inert one where it names
/// none.
pub open spec fn element_at(elements: Seq<Element>, id: ElementId) -> Element {
    if 0 <= id.slot() < elements.len() {
        elements[id.slot()]
    } else {
        Element::Inert
    }
}

/// A bound on the work that delivering `event` can cause: it exceeds the
/// combined weight of the events that the receiver sends in response.
pub open spec fn event_weight(elements: Seq<Element>, event: Event) -> nat {
    match event.message {
        Message::Window(WindowEvent::Redraw) => 1,
        Message::Window(_) => 8,
        Message::Node(NodeEvent::ConnectInput) => 3,
        Message::Node(NodeEvent::ConnectOutput) => 2,
        Message::Node(NodeEvent::TrySnap(_, _)) => 2,
        Message::Node(NodeEvent::Disconnect) => if element_at(elements, event.target) is Input {
            3
        } else {
            2
        },
        Message::Node(_) => 1,
    }
}

/// The combined weight of the events in `queue`.
pub open spec fn total_weight(elements: Seq<Element>, queue: Seq<Event>) -> nat
    decreases queue.len(),
{
    if queue.len() == 0 {
        0
    } else {
        total_weight(elements, queue.drop_last()) + event_weight(elements, queue.last())
    }
}

/// The output that the wire `wire` names after `event` has been delivered,
/// if it named `bound` before. Only what is addressed to the wire, and tells
/// it to bind or to let go, makes a difference.
pub open spec fn wire_told(event: Event, wire: ElementId, bound: ElementId) -> ElementId {
    if event.target == wire {
        match event.message {
            Message::Node(NodeEvent::ConnectSockets(output)) => output,
            Message::Node(NodeEvent::Disconnect) => ElementId::none(),
            _ => bound,
        }
    } else {
        bound
    }
}

/// The output that the wire `wire` will name once everything in `queue` has
/// been delivered, if it names `bound` now.
pub open spec fn wire_after(queue: Seq<Event>, wire: ElementId, bound: ElementId) -> ElementId
    decreases queue.len(),
{
    if queue.len() == 0 {
        bound
    } else {
        wire_told(queue.last(), wire, wire_after(queue.drop_last(), wire, bound))
    }
}

/// The mathematical content of a [`Session`].
pub struct SessionView {
    /// The arena: the element named by a handle sits at the handle's slot.
    pub elements: Seq<Element>,
    /// The shared context.
    pub ctx: ContextView,
    /// Whether a redraw has been asked for since the last pointer event came
    /// in.
    pub needs_redraw: bool,
}

impl SessionView {
    /// Whether `id` names an element of the session.
    pub open spec fn has(self, id: ElementId) -> bool {
        0 <= id.slot() < self.elements.len()
    }

    /// The element that `id` names; an inert one where it names none.
    pub open spec fn element(self, id: ElementId) -> Element {
        element_at(self.elements, id)
    }

    /// The structure that every session keeps.
    ///
    /// The root sits in slot zero and is inert. Each input socket owns one
    /// wire and each wire is owned by one input socket, and they name each
    /// other. No input socket names itself as its peer.
    pub open spec fn wf(self) -> bool {
        &&& 1 <= self.elements.len() <= 0xffff_ffff
        &&& self.elements[0] is Inert
        &&& forall|i: int|
            0 <= i < self.elements.len() ==> (#[trigger] self.elements[i] matches Element::Input(
                socket,
            ) ==> {
                &&& self.has(socket.connection)
                &&& self.elements[socket.connection.slot()] matches Element::Connection(wire)
                &&& wire.input_socket.slot() == i
                &&& socket.connected_output.slot() != i
            })
        &&& forall|i: int|
            0 <= i < self.elements.len() ==> (#[trigger] self.elements[i] matches Element::Connection(
                wire,
            ) ==> {
                &&& self.has(wire.input_socket)
                &&& self.elements[wire.input_socket.slot()] matches Element::Input(socket)
                &&& socket.connection.slot() == i
            })
    }

    /// Whether the records of connections agree with one another.
    ///
    /// The peer of every input socket is an output socket, if it has one.
    /// Every wire is in step with its owner: once the messages on their way
    /// to it have arrived, it will name the output that its owner names now.
    /// And whoever is about to tell an element to bind to it is an output
    /// socket.
    pub open spec fn linked(self) -> bool {
        &&& forall|i: int|
            0 <= i < self.elements.len() ==> (#[trigger] self.elements[i] matches Element::Input(
                socket,
            ) ==> {
                &&& socket.connected_output.is_none() || self.element(socket.connected_output)
                    is Output
                &&& wire_after(
                    self.ctx.queue,
                    socket.connection,
                    self.element(socket.connection)->Connection_0.output_socket,
                ) == socket.connected_output
            })
        &&& forall|k: int|
            0 <= k < self.ctx.queue.len() ==> ((#[trigger] self.ctx.queue[k]).message
                == Message::Node(NodeEvent::ConnectOutput) ==> self.element(
                self.ctx.queue[k].origin,
            ) is Output)
    }

    /// The state between two inputs: the session is well formed, its records
    /// agree, and nothing is pending.
    pub open spec fn settled(self) -> bool {
        &&& self.wf()
        &&& self.linked()
        &&& self.ctx.queue.len() == 0
    }

    /// Whether `event` may be sent into the session from outside without
    /// upsetting its records: it does not pose as an output socket, and it
    /// does not order a wire about behind the back of its owner.
    pub open spec fn admits(self, event: Event) -> bool {
        match event.message {
            Message::Node(NodeEvent::ConnectOutput) => self.element(event.origin) is Output,
            Message::Node(NodeEvent::ConnectSockets(_)) => !(self.element(event.target)
                is Connection),
            Message::Node(NodeEvent::Disconnect) => !(self.element(event.target) is Connection),
            _ => true,
        }
    }

    /// The session after `event` has been sent into it from outside and all
    /// that follows from it has been handled.
    pub open spec fn sent(self, event: Event) -> SessionView {
        SessionView { ctx: self.fresh().ctx.post(event), ..self.fresh() }.settle()
    }

    /// The combined weight of the pending events.
    pub open spec fn pending_weight(self) -> nat {
        total_weight(self.elements, self.ctx.queue)
    }

    /// The session after `event` has been handed to its target. An event
    /// addressed to no element of the session is dropped.
    pub open spec fn deliver(self, event: Event) -> SessionView {
        let needs_redraw = self.needs_redraw || (event.target == ElementId::root_id()
            && event.message == Message::Window(WindowEvent::Redraw));
        if self.has(event.target) {
            let (element, ctx) = self.elements[event.target.slot()].handled(
                self.ctx,
                event.target,
                event,
            );
            SessionView {
                elements: self.elements.update(event.target.slot(), element),
                ctx,
                needs_redraw,
            }
        } else {
            SessionView { needs_redraw, ..self }
        }
    }

    /// The session after the oldest pending event has been taken off the
    /// queue and delivered.
    pub open spec fn step(self) -> SessionView {
        let event = self.ctx.queue[0];
        let taken = SessionView {
            ctx: ContextView { queue: self.ctx.queue.skip(1), ..self.ctx },
            ..self
        };
        taken.deliver(event)
    }

    /// The session after events have been delivered, oldest first, until
    /// none is pending.
    pub open spec fn settle(self) -> SessionView
        decreases self.pending_weight(),
        when self.wf()
        via Self::settle_terminates
    {
        if self.ctx.queue.len() == 0 {
            self
        } else {
            self.step().settle()
        }
    }

    #[via_fn]
    proof fn settle_terminates(self) {
        if self.ctx.queue.len() != 0 {
            lemma_step(self);
        }
    }

    /// The session after `message` has been queued for the element that
    /// pointer input goes to: the holder of the capture, else the hovered
    /// element.
    pub open spec fn post_pointer(self, message: WindowEvent) -> SessionView {
        SessionView {
            ctx: self.ctx.emit(
                ElementId::none(),
                self.ctx.pointer.delivery_target(),
                Message::Window(message),
            ),
            ..self
        }
    }

    /// The session after hit-testing has found `element` under the cursor:
    /// if that is news, the element that was hovered before is told that the
    /// cursor has left it.
    pub open spec fn hover(self, element: ElementId) -> SessionView {
        if element != self.ctx.pointer.hovered {
            SessionView {
                ctx: self.ctx.emit(
                    ElementId::none(),
                    self.ctx.pointer.hovered,
                    Message::Window(WindowEvent::MouseOut),
                ).hover(element),
                ..self
            }
        } else {
            self
        }
    }

    /// The session with the redraw flag lowered, as it is when a pointer
    /// event comes in.
    pub open spec fn fresh(self) -> SessionView {
        SessionView { needs_redraw: false, ..self }
    }

    /// The session after `button` has been pressed and all that follows from
    /// it has been handled.
    pub open spec fn pressed(self, button: MouseButton) -> SessionView {
        self.fresh().post_pointer(WindowEvent::MouseDown(button)).settle()
    }

    /// The session after `button` has been released and all that follows
    /// from it has been handled.
    pub open spec fn released(self, button: MouseButton) -> SessionView {
        self.fresh().post_pointer(WindowEvent::MouseUp(button)).settle()
    }

    /// The session after the cursor has moved to a place where `element` is
    /// under it, and all that follows from it has been handled.
    pub open spec fn moved(self, element: ElementId) -> SessionView {
        self.fresh().hover(element).post_pointer(WindowEvent::MouseMove).settle()
    }
}

/// Adding an event to the queue adds its weight.
pub proof fn lemma_weight_push(elements: Seq<Element>, queue: Seq<Event>, event: Event)
    ensures
        total_weight(elements, queue.push(event)) == total_weight(elements, queue) + event_weight(
            elements,
            event,
        ),
{
    assert(queue.push(event).drop_last() =~= queue);
}

/// Taking the oldest event off the queue takes off its weight.
pub proof fn lemma_weight_skip(elements: Seq<Element>, queue: Seq<Event>)
    requires
        queue.len() > 0,
    ensures
        total_weight(elements, queue) == event_weight(elements, queue[0]) + total_weight(
            elements,
            queue.skip(1),
        ),
    decreases queue.len(),
{
    if queue.len() == 1 {
        assert(queue.skip(1) =~= Seq::<Event>::empty());
        assert(queue.drop_last() =~= Seq::<Event>::empty());
    } else {
        lemma_weight_skip(elements, queue.drop_last());
        assert(queue.drop_last().skip(1) =~= queue.skip(1).drop_last());
        assert(queue.skip(1).last() == queue.last());
        assert(queue.drop_last()[0] == queue[0]);
    }
}

/// Weights depend only on which slots hold input sockets.
pub proof fn lemma_weight_stable(before: Seq<Element>, after: Seq<Element>, queue: Seq<Event>)
    requires
        before.len() == after.len(),
        forall|i: int| 0 <= i < before.len() ==> (before[i] is Input <==> after[i] is Input),
    ensures
        total_weight(before, queue) == total_weight(after, queue),
    decreases queue.len(),
{
    if queue.len() > 0 {
        lemma_weight_stable(before, after, queue.drop_last());
    }
}

/// What a handler sends weighs less than the event it handles, provided the
/// wire of an input socket is not itself an input socket.
proof fn lemma_handled_weighs_less(
    elements: Seq<Element>,
    element: Element,
    ctx: ContextView,
    event: Event,
)
    requires
        element is Input <==> element_at(elements, event.target) is Input,
        element matches Element::Input(socket) ==> !(element_at(elements, socket.connection)
            is Input),
    ensures
        total_weight(elements, element.handled(ctx, event.target, event).1.queue) < total_weight(
            elements,
            ctx.queue,
        ) + event_weight(elements, event),
{
    let entity = event.target;
    let queue = ctx.queue;
    let redraw = Event::routed(
        entity,
        ElementId::root_id(),
        Message::Window(WindowEvent::Redraw),
    );
    let hovered = ctx.pointer.hovered;
    match element {
        Element::Inert => {},
        Element::Connection(_) => {},
        Element::View(_) => {
            lemma_weight_push(elements, queue, redraw);
        },
        Element::Node(_) => {
            lemma_weight_push(elements, queue, redraw);
        },
        Element::Input(socket) => {
            match event.message {
                Message::Window(WindowEvent::MouseDown(MouseButton::Left)) => {
                    lemma_weight_push(elements, queue, redraw);
                },
                Message::Window(WindowEvent::MouseUp(MouseButton::Left)) => {
                    let ask = Event::routed(entity, hovered, Message::Node(NodeEvent::ConnectInput));
                    lemma_weight_push(elements, queue, redraw);
                    lemma_weight_push(elements, queue.push(redraw), ask);
                },
                Message::Window(WindowEvent::MouseMove) => {
                    let probe = Event::routed(
                        entity,
                        hovered,
                        Message::Node(NodeEvent::TrySnap(entity, hovered)),
                    );
                    lemma_weight_push(elements, queue, probe);
                    lemma_weight_push(elements, queue.push(probe), redraw);
                },
                Message::Window(WindowEvent::MouseOut) => {
                    let own = Event::routed(entity, entity, Message::Node(NodeEvent::Disconnect));
                    let peer = Event::routed(
                        entity,
                        socket.connected_output,
                        Message::Node(NodeEvent::Disconnect),
                    );
                    lemma_weight_push(elements, queue, own);
                    lemma_weight_push(elements, queue.push(own), peer);
                },
                Message::Node(NodeEvent::ConnectOutput) => {
                    lemma_weight_push(
                        elements,
                        queue,
                        Event::routed(
                            entity,
                            socket.connection,
                            Message::Node(NodeEvent::ConnectSockets(event.origin)),
                        ),
                    );
                },
                Message::Node(NodeEvent::TrySnap(input, output)) => {
                    lemma_weight_push(
                        elements,
                        queue,
                        Event::routed(entity, event.origin, Message::Node(NodeEvent::Snap(input, output))),
                    );
                },
                Message::Node(NodeEvent::Disconnect) => {
                    lemma_weight_push(
                        elements,
                        queue,
                        Event::routed(entity, socket.connection, Message::Node(NodeEvent::Disconnect)),
                    );
                },
                _ => {},
            }
        },
        Element::Output(socket) => {
            match event.message {
                Message::Window(WindowEvent::MouseDown(MouseButton::Left)) => {
                    lemma_weight_push(elements, queue, redraw);
                },
                Message::Window(WindowEvent::MouseUp(MouseButton::Left)) => {
                    let tell = Event::routed(entity, hovered, Message::Node(NodeEvent::ConnectOutput));
                    lemma_weight_push(elements, queue, redraw);
                    lemma_weight_push(elements, queue.push(redraw), tell);
                },
                Message::Window(WindowEvent::MouseMove) => {
                    let probe = Event::routed(
                        entity,
                        hovered,
                        Message::Node(NodeEvent::TrySnap(entity, hovered)),
                    );
                    lemma_weight_push(elements, queue, probe);
                    lemma_weight_push(elements, queue.push(probe), redraw);
                },
                Message::Node(NodeEvent::ConnectInput) => {
                    lemma_weight_push(
                        elements,
                        queue,
                        Event::routed(entity, event.origin, Message::Node(NodeEvent::ConnectOutput)),
                    );
                },
                Message::Node(NodeEvent::TrySnap(input, output)) => {
                    lemma_weight_push(
                        elements,
                        queue,
                        Event::routed(entity, event.origin, Message::Node(NodeEvent::Snap(input, output))),
                    );
                },
                Message::Node(NodeEvent::Disconnect) => {
                    lemma_weight_push(elements, queue, redraw);
                },
                _ => {},
            }
        },
    }
}

/// Handling an event changes neither the kind of an element nor the link
/// between an input socket and its wire, and never makes an input socket its
/// own peer.
proof fn lemma_handled_keeps_shape(element: Element, ctx: ContextView, entity: ElementId, event: Event)
    ensures
        ({
            let after = element.handled(ctx, entity, event).0;
            &&& element is Inert <==> after is Inert
            &&& element is View <==> after is View
            &&& element is Node <==> after is Node
            &&& element is Output <==> after is Output
            &&& element matches Element::Input(socket) ==> after matches Element::Input(changed)
                && changed.connection == socket.connection && (changed.connected_output
                == socket.connected_output || changed.connected_output.is_none()
                || changed.connected_output != entity)
            &&& after is Input ==> element is Input
            &&& element matches Element::Connection(wire) ==> after matches Element::Connection(
                changed,
            ) && changed.input_socket == wire.input_socket
            &&& after is Connection ==> element is Connection
        }),
{
}

/// Delivering the oldest pending event keeps the session well formed and
/// lowers the weight of what is pending.
pub proof fn lemma_step(session: SessionView)
    requires
        session.wf(),
        session.ctx.queue.len() > 0,
    ensures
        session.step().wf(),
        session.step().elements.len() == session.elements.len(),
        session.step().pending_weight() < session.pending_weight(),
{
    let event = session.ctx.queue[0];
    let rest = ContextView { queue: session.ctx.queue.skip(1), ..session.ctx };
    let taken = SessionView { ctx: rest, ..session };
    let after = session.step();
    lemma_weight_skip(session.elements, session.ctx.queue);
    if taken.has(event.target) {
        let slot = event.target.slot();
        let element = session.elements[slot];
        lemma_handled_keeps_shape(element, rest, event.target, event);
        if let Element::Input(socket) = element {
            assert(session.elements[socket.connection.slot()] is Connection);
        }
        lemma_handled_weighs_less(session.elements, element, rest, event);
        lemma_weight_stable(session.elements, after.elements, after.ctx.queue);
        assert forall|i: int| 0 <= i < after.elements.len() implies (
        #[trigger] after.elements[i] matches Element::Input(socket) ==> {
            &&& after.has(socket.connection)
            &&& after.elements[socket.connection.slot()] matches Element::Connection(wire)
            &&& wire.input_socket.slot() == i
            &&& socket.connected_output.slot() != i
        }) by {
            if let Element::Input(socket) = after.elements[i] {
                assert(session.elements[i] is Input);
                let old_socket = session.elements[i]->Input_0;
                assert(socket.connection == old_socket.connection);
                assert(session.elements[old_socket.connection.slot()] is Connection);
            }
        }
        assert forall|i: int| 0 <= i < after.elements.len() implies (
        #[trigger] after.elements[i] matches Element::Connection(wire) ==> {
            &&& after.has(wire.input_socket)
            &&& after.elements[wire.input_socket.slot()] matches Element::Input(socket)
            &&& socket.connection.slot() == i
        }) by {
            if let Element::Connection(wire) = after.elements[i] {
                assert(session.elements[i] is Connection);
                let old_wire = session.elements[i]->Connection_0;
                assert(wire.input_socket == old_wire.input_socket);
                assert(session.elements[old_wire.input_socket.slot()] is Input);
            }
        }
    }
}

/// Queueing an event tells the wire last.
pub proof fn lemma_wire_after_push(
    queue: Seq<Event>,
    event: Event,
    wire: ElementId,
    bound: ElementId,
)
    ensures
        wire_after(queue.push(event), wire, bound) == wire_told(
            event,
            wire,
            wire_after(queue, wire, bound),
        ),
{
    assert(queue.push(event).drop_last() =~= queue);
}

/// The oldest pending event is the first that the wire hears of.
pub proof fn lemma_wire_after_skip(queue: Seq<Event>, wire: ElementId, bound: ElementId)
    requires
        queue.len() > 0,
    ensures
        wire_after(queue, wire, bound) == wire_after(
            queue.skip(1),
            wire,
            wire_told(queue[0], wire, bound),
        ),
    decreases queue.len(),
{
    if queue.len() == 1 {
        assert(queue.skip(1) =~= Seq::<Event>::empty());
        assert(queue.drop_last() =~= Seq::<Event>::empty());
    } else {
        lemma_wire_after_skip(queue.drop_last(), wire, bound);
        assert(queue.drop_last().skip(1) =~= queue.skip(1).drop_last());
        assert(queue.skip(1).last() == queue.last());
        assert(queue.drop_last()[0] == queue[0]);
    }
}

/// What an element sends leaves a wire in peace, unless the element is the
/// owner of the wire and tells it to bind or to let go.
proof fn lemma_sent_spares_wire(
    element: Element,
    ctx: ContextView,
    event: Event,
    wire: ElementId,
    bound: ElementId,
)
    requires
        event.target != wire,
        element matches Element::Input(socket) ==> socket.connected_output != wire && (
        socket.connection == wire ==> event.message != Message::Node(NodeEvent::ConnectOutput)
            && event.message != Message::Node(NodeEvent::Disconnect)),
    ensures
        wire_after(element.handled(ctx, event.target, event).1.queue, wire, bound) == wire_after(
            ctx.queue,
            wire,
            bound,
        ),
{
    let entity = event.target;
    let queue = ctx.queue;
    let redraw = Event::routed(
        entity,
        ElementId::root_id(),
        Message::Window(WindowEvent::Redraw),
    );
    let hovered = ctx.pointer.hovered;
    let probe = Event::routed(entity, hovered, Message::Node(NodeEvent::TrySnap(entity, hovered)));
    match element {
        Element::Inert => {},
        Element::Connection(_) => {},
        Element::View(_) => {
            lemma_wire_after_push(queue, redraw, wire, bound);
        },
        Element::Node(_) => {
            lemma_wire_after_push(queue, redraw, wire, bound);
        },
        Element::Input(socket) => {
            match event.message {
                Message::Window(WindowEvent::MouseDown(MouseButton::Left)) => {
                    lemma_wire_after_push(queue, redraw, wire, bound);
                },
                Message::Window(WindowEvent::MouseUp(MouseButton::Left)) => {
                    let ask = Event::routed(entity, hovered, Message::Node(NodeEvent::ConnectInput));
                    lemma_wire_after_push(queue, redraw, wire, bound);
                    lemma_wire_after_push(queue.push(redraw), ask, wire, bound);
                },
                Message::Window(WindowEvent::MouseMove) => {
                    lemma_wire_after_push(queue, probe, wire, bound);
                    lemma_wire_after_push(queue.push(probe), redraw, wire, bound);
                },
                Message::Window(WindowEvent::MouseOut) => {
                    let own = Event::routed(entity, entity, Message::Node(NodeEvent::Disconnect));
                    let peer = Event::routed(
                        entity,
                        socket.connected_output,
                        Message::Node(NodeEvent::Disconnect),
                    );
                    lemma_wire_after_push(queue, own, wire, bound);
                    lemma_wire_after_push(queue.push(own), peer, wire, bound);
                },
                Message::Node(NodeEvent::ConnectOutput) => {
                    lemma_wire_after_push(
                        queue,
                        Event::routed(
                            entity,
                            socket.connection,
                            Message::Node(NodeEvent::ConnectSockets(event.origin)),
                        ),
                        wire,
                        bound,
                    );
                },
                Message::Node(NodeEvent::TrySnap(input, output)) => {
                    lemma_wire_after_push(
                        queue,
                        Event::routed(entity, event.origin, Message::Node(NodeEvent::Snap(input, output))),
                        wire,
                        bound,
                    );
                },
                Message::Node(NodeEvent::Disconnect) => {
                    lemma_wire_after_push(
                        queue,
                        Event::routed(entity, socket.connection, Message::Node(NodeEvent::Disconnect)),
                        wire,
                        bound,
                    );
                },
                _ => {},
            }
        },
        Element::Output(_) => {
            match event.message {
                Message::Window(WindowEvent::MouseDown(MouseButton::Left)) => {
                    lemma_wire_after_push(queue, redraw, wire, bound);
                },
                Message::Window(WindowEvent::MouseUp(MouseButton::Left)) => {
                    let tell = Event::routed(entity, hovered, Message::Node(NodeEvent::ConnectOutput));
                    lemma_wire_after_push(queue, redraw, wire, bound);
                    lemma_wire_after_push(queue.push(redraw), tell, wire, bound);
                },
                Message::Window(WindowEvent::MouseMove) => {
                    lemma_wire_after_push(queue, probe, wire, bound);
                    lemma_wire_after_push(queue.push(probe), redraw, wire, bound);
                },
                Message::Node(NodeEvent::ConnectInput) => {
                    lemma_wire_after_push(
                        queue,
                        Event::routed(entity, event.origin, Message::Node(NodeEvent::ConnectOutput)),
                        wire,
                        bound,
                    );
                },
                Message::Node(NodeEvent::TrySnap(input, output)) => {
                    lemma_wire_after_push(
                        queue,
                        Event::routed(entity, event.origin, Message::Node(NodeEvent::Snap(input, output))),
                        wire,
                        bound,
                    );
                },
                Message::Node(NodeEvent::Disconnect) => {
                    lemma_wire_after_push(queue, redraw, wire, bound);
                },
                _ => {},
            }
        },
    }
}

/// An input socket keeps its wire in step: whatever it handles, the wire
/// will come to name the peer that the socket names afterwards.
proof fn lemma_owner_keeps_wire(
    socket: InputSocket,
    ctx: ContextView,
    event: Event,
    bound: ElementId,
)
    requires
        event.target != socket.connection,
        socket.connected_output != socket.connection,
        wire_after(ctx.queue, socket.connection, bound) == socket.connected_output,
    ensures
        ({
            let (after, sent) = socket.handled(ctx, event.target, event);
            wire_after(sent.queue, after.connection, bound) == after.connected_output
        }),
{
    let entity = event.target;
    let wire = socket.connection;
    let queue = ctx.queue;
    match event.message {
        Message::Node(NodeEvent::ConnectOutput) => {
            lemma_wire_after_push(
                queue,
                Event::routed(entity, wire, Message::Node(NodeEvent::ConnectSockets(event.origin))),
                wire,
                bound,
            );
        },
        Message::Node(NodeEvent::Disconnect) => {
            lemma_wire_after_push(
                queue,
                Event::routed(entity, wire, Message::Node(NodeEvent::Disconnect)),
                wire,
                bound,
            );
        },
        _ => {
            lemma_sent_spares_wire(Element::Input(socket), ctx, event, wire, bound);
        },
    }
}

/// Delivering the oldest pending event keeps the records of the session in
/// agreement.
pub proof fn lemma_step_keeps_links(session: SessionView)
    requires
        session.wf(),
        session.linked(),
        session.ctx.queue.len() > 0,
    ensures
        session.step().linked(),
{
    let event = session.ctx.queue[0];
    let rest = ContextView { queue: session.ctx.queue.skip(1), ..session.ctx };
    let taken = SessionView { ctx: rest, ..session };
    let after = session.step();
    lemma_step(session);
    let target = event.target;
    if taken.has(target) {
        lemma_handled_keeps_shape(session.elements[target.slot()], rest, target, event);
    }
    assert forall|i: int| 0 <= i < after.elements.len() implies (
    #[trigger] after.elements[i] matches Element::Input(changed) ==> {
        &&& changed.connected_output.is_none() || after.element(changed.connected_output)
            is Output
        &&& wire_after(
            after.ctx.queue,
            changed.connection,
            after.element(changed.connection)->Connection_0.output_socket,
        ) == changed.connected_output
    }) by {
        if after.elements[i] is Input {
            assert(session.elements[i] is Input);
            let socket = session.elements[i]->Input_0;
            let wire = socket.connection;
            assert(session.elements[wire.slot()] is Connection);
            let bound = session.elements[wire.slot()]->Connection_0.output_socket;
            lemma_wire_after_skip(session.ctx.queue, wire, bound);
            assert(session.ctx.queue[0] == event);
            if !socket.connected_output.is_none() {
                assert(session.element(socket.connected_output) is Output);
            }
            if !taken.has(target) {
                assert(target != wire);
            } else if target == wire {
                assert(target.slot() != i);
            } else if target.slot() == i {
                lemma_owner_keeps_wire(socket, rest, event, bound);
                if event.message == Message::Node(NodeEvent::ConnectOutput) {
                    assert(session.element(event.origin) is Output);
                }
            } else {
                let other = session.elements[target.slot()];
                if let Element::Input(stranger) = other {
                    assert(session.elements[stranger.connection.slot()] is Connection);
                    assert(stranger.connection != wire);
                    if !stranger.connected_output.is_none() {
                        assert(session.element(stranger.connected_output) is Output);
                    }
                }
                lemma_sent_spares_wire(other, rest, event, wire, bound);
            }
            let changed = after.elements[i]->Input_0;
            if !changed.connected_output.is_none() {
                let peer = changed.connected_output;
                assert(session.element(peer) is Output);
                if taken.has(target) && peer.slot() == target.slot() {
                    assert(after.elements[peer.slot()] is Output);
                }
            }
        }
    }
    assert forall|k: int|
        0 <= k < after.ctx.queue.len() && (#[trigger] after.ctx.queue[k]).message == Message::Node(
            NodeEvent::ConnectOutput,
        ) implies after.element(after.ctx.queue[k].origin) is Output by {
        let sent = after.ctx.queue[k];
        if k < rest.queue.len() {
            assert(sent == session.ctx.queue[k + 1]);
            assert(session.element(sent.origin) is Output);
        } else {
            assert(taken.has(target));
            assert(session.elements[target.slot()] is Output);
            assert(sent.origin == target);
        }
        if taken.has(target) && sent.origin.slot() == target.slot() {
            assert(after.elements[target.slot()] is Output);
        }
    }
}

/// Settling keeps the records of the session in agreement.
pub proof fn lemma_settle_keeps_links(session: SessionView)
    requires
        session.wf(),
        session.linked(),
    ensures
        session.settle().settled(),
        session.settle().elements.len() == session.elements.len(),
    decreases session.pending_weight(),
{
    if session.ctx.queue.len() > 0 {
        lemma_step(session);
        lemma_step_keeps_links(session);
        lemma_settle_keeps_links(session.step());
    }
}

/// Queueing an event that the session admits keeps its records in
/// agreement.
pub proof fn lemma_post_keeps_links(session: SessionView, event: Event)
    requires
        session.wf(),
        session.linked(),
        session.admits(event),
    ensures
        (SessionView { ctx: session.ctx.post(event), ..session }).wf(),
        (SessionView { ctx: session.ctx.post(event), ..session }).linked(),
{
    let after = SessionView { ctx: session.ctx.post(event), ..session };
    assert forall|i: int| 0 <= i < after.elements.len() implies (
    #[trigger] after.elements[i] matches Element::Input(socket) ==> {
        &&& socket.connected_output.is_none() || after.element(socket.connected_output) is Output
        &&& wire_after(
            after.ctx.queue,
            socket.connection,
            after.element(socket.connection)->Connection_0.output_socket,
        ) == socket.connected_output
    }) by {
        if let Element::Input(socket) = session.elements[i] {
            assert(session.elements[socket.connection.slot()] is Connection);
            lemma_wire_after_push(
                session.ctx.queue,
                event,
                socket.connection,
                session.element(socket.connection)->Connection_0.output_socket,
            );
        }
    }
}

/// Queueing pointer input keeps the session well formed and its records in
/// agreement.
pub proof fn lemma_pointer_keeps_links(session: SessionView, message: WindowEvent)
    requires
        session.wf(),
        session.linked(),
    ensures
        session.post_pointer(message).wf(),
        session.post_pointer(message).linked(),
{
    lemma_post_keeps_links(
        session,
        Event::routed(
            ElementId::none(),
            session.ctx.pointer.delivery_target(),
            Message::Window(message),
        ),
    );
}

/// A change of the hovered element keeps the session well formed and its
/// records in agreement.
pub proof fn lemma_hover_keeps_links(session: SessionView, element: ElementId)
    requires
        session.wf(),
        session.linked(),
    ensures
        session.hover(element).wf(),
        session.hover(element).linked(),
{
    if element != session.ctx.pointer.hovered {
        let notice = Event::routed(
            ElementId::none(),
            session.ctx.pointer.hovered,
            Message::Window(WindowEvent::MouseOut),
        );
        lemma_post_keeps_links(session, notice);
        let posted = SessionView { ctx: session.ctx.post(notice), ..session };
        let after = session.hover(element);
        assert(after.elements == posted.elements);
        assert(after.ctx.queue == posted.ctx.queue);
    }
}

/// An editing session.
pub struct Session {
    elements: Vec<Element>,
    ctx: InteractionContext,
    needs_redraw: bool,
}

impl View for Session {
    type V = SessionView;

    closed spec fn view(&self) -> SessionView {
        SessionView { elements: self.elements@, ctx: self.ctx@, needs_redraw: self.needs_redraw }
    }
}

impl Session {
    /// A session that holds the root and nothing else. Nothing is captured,
    /// the cursor is over the root, and nothing is pending.
    pub fn new() -> (session: Session)
        ensures
            session@.settled(),
            session@.elements == seq![Element::Inert],
            session@.ctx.pointer.captured == ElementId::none(),
            session@.ctx.pointer.hovered == ElementId::root_id(),
            session@.ctx.queue == Seq::<Event>::empty(),
            !session@.needs_redraw,
    {
        let mut elements: Vec<Element> = Vec::new();
        elements.push(Element::Inert);
        let session = Session { elements, ctx: InteractionContext::new(), needs_redraw: false };
        assert(session@.elements =~= seq![Element::Inert]);
        session
    }

    /// The number of elements, the root included.
    pub fn len(&self) -> (n: usize)
        ensures
            n == self@.elements.len(),
    {
        self.elements.len()
    }

    /// The element that `id` names; an inert one where it names none.
    pub fn element(&self, id: ElementId) -> (element: Element)
        ensures
            element == self@.element(id),
    {
        let slot = id.0 as usize;
        if slot < self.elements.len() {
            self.elements[slot]
        } else {
            Element::Inert
        }
    }

    /// The element that holds the pointer, or the null handle.
    pub fn captured(&self) -> (element: ElementId)
        ensures
            element == self@.ctx.pointer.captured,
    {
        self.ctx.captured()
    }

    /// The topmost element under the cursor.
    pub fn hovered(&self) -> (element: ElementId)
        ensures
            element == self@.ctx.pointer.hovered,
    {
        self.ctx.hovered()
    }

    /// Adds `element` in the next free slot, unless the arena is full.
    fn add(&mut self, element: Element) -> (id: Option<ElementId>)
        requires
            old(self)@.elements.len() <= 0xffff_ffff,
        ensures
            old(self)@.elements.len() >= 0xffff_ffff ==> id is None && final(self)@ == old(self)@,
            old(self)@.elements.len() < 0xffff_ffff ==> id == Some(
                ElementId(old(self)@.elements.len() as u32),
            ) && final(self)@ == (SessionView {
                elements: old(self)@.elements.push(element),
                ..old(self)@
            }),
    {
        let n = self.elements.len();
        if n >= 0xffff_ffff {
            None
        } else {
            self.elements.push(element);
            Some(ElementId::new(n as u32))
        }
    }

    /// Adds an element that takes no part in the protocol. Returns its
    /// handle, or `None` if the arena is full.
    pub fn add_inert(&mut self) -> (id: Option<ElementId>)
        requires
            old(self)@.settled(),
        ensures
            final(self)@.settled(),
            old(self)@.elements.len() >= 0xffff_ffff ==> id is None && final(self)@ == old(self)@,
            old(self)@.elements.len() < 0xffff_ffff ==> id == Some(
                ElementId(old(self)@.elements.len() as u32),
            ) && final(self)@ == (SessionView {
                elements: old(self)@.elements.push(Element::Inert),
                ..old(self)@
            }),
    {
        self.add(Element::Inert)
    }

    /// Adds a node that is neither selected nor being moved. Returns its
    /// handle, or `None` if the arena is full.
    pub fn add_node(&mut self) -> (id: Option<ElementId>)
        requires
            old(self)@.settled(),
        ensures
            final(self)@.settled(),
            old(self)@.elements.len() >= 0xffff_ffff ==> id is None && final(self)@ == old(self)@,
            old(self)@.elements.len() < 0xffff_ffff ==> id == Some(
                ElementId(old(self)@.elements.len() as u32),
            ) && final(self)@ == (SessionView {
                elements: old(self)@.elements.push(
                    Element::Node(NodeWidget { selected: false, moving: false }),
                ),
                ..old(self)@
            }),
    {
        self.add(Element::Node(NodeWidget::new()))
    }

    /// Adds an idle output socket. Returns its handle, or `None` if the
    /// arena is full.
    pub fn add_output_socket(&mut self) -> (id: Option<ElementId>)
        requires
            old(self)@.settled(),
        ensures
            final(self)@.settled(),
            old(self)@.elements.len() >= 0xffff_ffff ==> id is None && final(self)@ == old(self)@,
            old(self)@.elements.len() < 0xffff_ffff ==> id == Some(
                ElementId(old(self)@.elements.len() as u32),
            ) && final(self)@ == (SessionView {
                elements: old(self)@.elements.push(
                    Element::Output(
                        OutputSocket {
                            connecting: false,
                            snapped_socket: ElementId::none(),
                            snapping: false,
                        },
                    ),
                ),
                ..old(self)@
            }),
    {
        self.add(Element::Output(OutputSocket::new()))
    }

    /// Adds an idle input socket and, in the slot after it, the wire it
    /// owns. Returns the handle of the socket, or `None` if the arena has no
    /// room for both.
    pub fn add_input_socket(&mut self) -> (id: Option<ElementId>)
        requires
            old(self)@.settled(),
        ensures
            final(self)@.settled(),
            old(self)@.elements.len() + 1 >= 0xffff_ffff ==> id is None && final(self)@ == old(
                self,
            )@,
            old(self)@.elements.len() + 1 < 0xffff_ffff ==> {
                let socket = ElementId(old(self)@.elements.len() as u32);
                let wire = ElementId((old(self)@.elements.len() + 1) as u32);
                &&& id == Some(socket)
                &&& final(self)@ == (SessionView {
                    elements: old(self)@.elements.push(
                        Element::Input(
                            InputSocket {
                                connecting: false,
                                connection: wire,
                                connected_output: ElementId::none(),
                                snapped_socket: ElementId::none(),
                                snapping: false,
                            },
                        ),
                    ).push(
                        Element::Connection(
                            ConnectionWidget { output_socket: ElementId::none(), input_socket: socket },
                        ),
                    ),
                    ..old(self)@
                })
            },
    {
        let n = self.elements.len();
        if n >= 0xffff_fffe {
            return None;
        }
        let socket_id = ElementId::new(n as u32);
        let wire_id = ElementId::new((n + 1) as u32);
        let mut socket = InputSocket::new();
        socket.connection = wire_id;
        self.elements.push(Element::Input(socket));
        self.elements.push(Element::Connection(ConnectionWidget::new(socket_id)));
        proof {
            let before = old(self)@;
            let after = self@;
            assert forall|i: int| 0 <= i < after.elements.len() implies (
            #[trigger] after.elements[i] matches Element::Input(socket) ==> {
                &&& after.has(socket.connection)
                &&& after.elements[socket.connection.slot()] matches Element::Connection(wire)
                &&& wire.input_socket.slot() == i
                &&& socket.connected_output.slot() != i
            }) by {
                if i < n {
                    assert(after.elements[i] == before.elements[i]);
                    if let Element::Input(socket) = before.elements[i] {
                        assert(after.elements[socket.connection.slot()]
                            == before.elements[socket.connection.slot()]);
                    }
                }
            }
            assert forall|i: int| 0 <= i < after.elements.len() implies (
            #[trigger] after.elements[i] matches Element::Connection(wire) ==> {
                &&& after.has(wire.input_socket)
                &&& after.elements[wire.input_socket.slot()] matches Element::Input(socket)
                &&& socket.connection.slot() == i
            }) by {
                if i < n {
                    assert(after.elements[i] == before.elements[i]);
                    if let Element::Connection(wire) = before.elements[i] {
                        assert(after.elements[wire.input_socket.slot()]
                            == before.elements[wire.input_socket.slot()]);
                    }
                }
            }
            assert forall|i: int| 0 <= i < after.elements.len() implies (
            #[trigger] after.elements[i] matches Element::Input(socket) ==> {
                &&& socket.connected_output.is_none() || after.element(socket.connected_output)
                    is Output
                &&& wire_after(
                    after.ctx.queue,
                    socket.connection,
                    after.element(socket.connection)->Connection_0.output_socket,
                ) == socket.connected_output
            }) by {
                if i < n {
                    assert(after.elements[i] == before.elements[i]);
                    if let Element::Input(socket) = before.elements[i] {
                        assert(after.elements[socket.connection.slot()]
                            == before.elements[socket.connection.slot()]);
                        if !socket.connected_output.is_none() {
                            assert(before.element(socket.connected_output) is Output);
                        }
                    }
                }
            }
        }
        Some(socket_id)
    }

    /// Adds a canvas view and, in the slot after it, the canvas on which the
    /// nodes are placed. Returns the handle of the view, or `None` if the
    /// arena has no room for both.
    pub fn add_view(&mut self) -> (id: Option<ElementId>)
        requires
            old(self)@.settled(),
        ensures
            final(self)@.settled(),
            old(self)@.elements.len() + 1 >= 0xffff_ffff ==> id is None && final(self)@ == old(
                self,
            )@,
            old(self)@.elements.len() + 1 < 0xffff_ffff ==> {
                let view = ElementId(old(self)@.elements.len() as u32);
                let canvas = ElementId((old(self)@.elements.len() + 1) as u32);
                &&& id == Some(view)
                &&& final(self)@ == (SessionView {
                    elements: old(self)@.elements.push(
                        Element::View(NodeView { panning: false, canvas }),
                    ).push(Element::Inert),
                    ..old(self)@
                })
            },
    {
        let n = self.elements.len();
        if n >= 0xffff_fffe {
            return None;
        }
        let view_id = ElementId::new(n as u32);
        let mut view = NodeView::new();
        view.canvas = ElementId::new((n + 1) as u32);
        self.elements.push(Element::View(view));
        self.elements.push(Element::Inert);
        proof {
            let before = old(self)@;
            let after = self@;
            assert forall|i: int| 0 <= i < n implies after.elements[i] == before.elements[i] by {}
            assert forall|i: int| 0 <= i < after.elements.len() implies (
            #[trigger] after.elements[i] matches Element::Input(socket) ==> {
                &&& after.has(socket.connection)
                &&& after.elements[socket.connection.slot()] matches Element::Connection(wire)
                &&& wire.input_socket.slot() == i
                &&& socket.connected_output.slot() != i
            }) by {
                if i < n {
                    assert(after.elements[i] == before.elements[i]);
                    if let Element::Input(socket) = before.elements[i] {
                        assert(after.elements[socket.connection.slot()]
                            == before.elements[socket.connection.slot()]);
                    }
                }
            }
            assert forall|i: int| 0 <= i < after.elements.len() implies (
            #[trigger] after.elements[i] matches Element::Connection(wire) ==> {
                &&& after.has(wire.input_socket)
                &&& after.elements[wire.input_socket.slot()] matches Element::Input(socket)
                &&& socket.connection.slot() == i
            }) by {
                if i < n {
                    assert(after.elements[i] == before.elements[i]);
                    if let Element::Connection(wire) = before.elements[i] {
                        assert(after.elements[wire.input_socket.slot()]
                            == before.elements[wire.input_socket.slot()]);
                    }
                }
            }
            assert forall|i: int| 0 <= i < after.elements.len() implies (
            #[trigger] after.elements[i] matches Element::Input(socket) ==> {
                &&& socket.connected_output.is_none() || after.element(socket.connected_output)
                    is Output
                &&& wire_after(
                    after.ctx.queue,
                    socket.connection,
                    after.element(socket.connection)->Connection_0.output_socket,
                ) == socket.connected_output
            }) by {
                if i < n {
                    assert(after.elements[i] == before.elements[i]);
                    if let Element::Input(socket) = before.elements[i] {
                        assert(after.elements[socket.connection.slot()]
                            == before.elements[socket.connection.slot()]);
                        if !socket.connected_output.is_none() {
                            assert(before.element(socket.connected_output) is Output);
                        }
                    }
                }
            }
        }
        Some(view_id)
    }

    /// Hands the stacking changes that elements have asked for to the caller,
    /// oldest first, and forgets them.
    pub fn take_stacking(&mut self) -> (changes: Vec<ZOrderChange>)
        ensures
            changes@ == old(self)@.ctx.stacking,
            final(self)@ == (SessionView {
                ctx: ContextView { stacking: Seq::empty(), ..old(self)@.ctx },
                ..old(self)@
            }),
            old(self)@.settled() ==> final(self)@.settled(),
    {
        self.ctx.take_stacking()
    }

    /// Sends `event` into the session as if an element had sent it, and
    /// handles all that follows. Returns whether a redraw has been asked for,
    /// or `None`, with nothing changed, if the session does not admit the
    /// event.
    pub fn send(&mut self, event: Event) -> (needs_redraw: Option<bool>)
        requires
            old(self)@.settled(),
        ensures
            final(self)@.settled(),
            !old(self)@.admits(event) ==> needs_redraw is None && final(self)@ == old(self)@,
            old(self)@.admits(event) ==> final(self)@ == old(self)@.sent(event) && needs_redraw
                == Some(final(self)@.needs_redraw),
    {
        let admitted = match event.message {
            Message::Node(NodeEvent::ConnectOutput) => match self.element(event.origin) {
                Element::Output(_) => true,
                _ => false,
            },
            Message::Node(NodeEvent::ConnectSockets(_)) | Message::Node(NodeEvent::Disconnect) => {
                match self.element(event.target) {
                    Element::Connection(_) => false,
                    _ => true,
                }
            },
            _ => true,
        };
        if !admitted {
            return None;
        }
        self.needs_redraw = false;
        proof {
            lemma_post_keeps_links(self@, event);
        }
        self.ctx.insert_event(event);
        Some(self.flush_events())
    }

    /// Hands `event` to its target.
    fn deliver(&mut self, event: Event)
        requires
            old(self)@.elements.len() <= 0xffff_ffff,
        ensures
            final(self)@ == old(self)@.deliver(event),
    {
        if event.target == ElementId::root() && event.message == Message::Window(
            WindowEvent::Redraw,
        ) {
            self.needs_redraw = true;
        }
        let slot = event.target.0 as usize;
        if slot < self.elements.len() {
            let mut element = self.elements[slot];
            element.on_event(&mut self.ctx, event.target, &event);
            self.elements.set(slot, element);
        }
    }

    /// Delivers events, oldest first, until none is pending. Returns whether
    /// a redraw has been asked for.
    pub fn flush_events(&mut self) -> (needs_redraw: bool)
        requires
            old(self)@.wf(),
            old(self)@.linked(),
        ensures
            final(self)@ == old(self)@.settle(),
            final(self)@.settled(),
            needs_redraw == final(self)@.needs_redraw,
    {
        loop
            invariant
                self@.wf(),
                self@.linked(),
                self@.settle() == old(self)@.settle(),
            ensures
                self@.settled(),
                self@ == old(self)@.settle(),
            decreases self@.pending_weight(),
        {
            let ghost before = self@;
            match self.ctx.bus.next_event() {
                Some(event) => {
                    proof {
                        lemma_step(before);
                        lemma_step_keeps_links(before);
                    }
                    self.deliver(event);
                    assert(self@ == before.step());
                },
                None => {
                    assert(self@ == before);
                    break ;
                },
            }
        }
        self.needs_redraw
    }

    /// Records that hit-testing has found `element` under the cursor, tells
    /// the element hovered before that the cursor has left it, and handles
    /// all that follows. Returns whether a redraw has been asked for.
    pub fn hover(&mut self, element: ElementId) -> (needs_redraw: bool)
        requires
            old(self)@.settled(),
        ensures
            final(self)@ == old(self)@.fresh().hover(element).settle(),
            final(self)@.settled(),
            needs_redraw == final(self)@.needs_redraw,
    {
        self.needs_redraw = false;
        proof {
            lemma_hover_keeps_links(self@, element);
        }
        self.hover_changed(element);
        self.flush_events()
    }

    /// Queues the notice that the cursor has left the hovered element, if
    /// `element` is another one, and makes `element` the hovered one.
    fn hover_changed(&mut self, element: ElementId)
        ensures
            final(self)@ == old(self)@.hover(element),
    {
        let hovered = self.ctx.hovered();
        if element != hovered {
            self.ctx.emit(ElementId::null(), hovered, Message::Window(WindowEvent::MouseOut));
            self.ctx.set_hovered(element);
        }
    }

    /// Queues `message` for the element that pointer input goes to.
    fn post_pointer(&mut self, message: WindowEvent)
        ensures
            final(self)@ == old(self)@.post_pointer(message),
    {
        let target = self.ctx.pointer.target();
        self.ctx.emit(ElementId::null(), target, Message::Window(message));
    }

    /// Handles a press of `button`, and all that follows from it. Returns
    /// whether a redraw has been asked for.
    pub fn mouse_down(&mut self, button: MouseButton) -> (needs_redraw: bool)
        requires
            old(self)@.settled(),
        ensures
            final(self)@ == old(self)@.pressed(button),
            final(self)@.settled(),
            needs_redraw == final(self)@.needs_redraw,
    {
        self.needs_redraw = false;
        proof {
            lemma_pointer_keeps_links(self@, WindowEvent::MouseDown(button));
        }
        self.post_pointer(WindowEvent::MouseDown(button));
        self.flush_events()
    }

    /// Handles a release of `button`, and all that follows from it. Returns
    /// whether a redraw has been asked for.
    pub fn mouse_up(&mut self, button: MouseButton) -> (needs_redraw: bool)
        requires
            old(self)@.settled(),
        ensures
            final(self)@ == old(self)@.released(button),
            final(self)@.settled(),
            needs_redraw == final(self)@.needs_redraw,
    {
        self.needs_redraw = false;
        proof {
            lemma_pointer_keeps_links(self@, WindowEvent::MouseUp(button));
        }
        self.post_pointer(WindowEvent::MouseUp(button));
        self.flush_events()
    }

    /// Handles a move of the cursor to a place where `element` is under it,
    /// and all that follows from it. Returns whether a redraw has been asked
    /// for.
    pub fn mouse_move(&mut self, element: ElementId) -> (needs_redraw: bool)
        requires
            old(self)@.settled(),
        ensures
            final(self)@ == old(self)@.moved(element),
            final(self)@.settled(),
            needs_redraw == final(self)@.needs_redraw,
    {
        self.needs_redraw = false;
        proof {
            lemma_hover_keeps_links(self@, element);
            lemma_pointer_keeps_links(self@.hover(element), WindowEvent::MouseMove);
        }
        self.hover_changed(element);
        self.post_pointer(WindowEvent::MouseMove);
        self.flush_events()
    }
}

} // verus!
