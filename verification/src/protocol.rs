//! What the connection protocol guarantees, gesture by gesture.

use vstd::prelude::*;
use crate::bus::redraw_request;
use crate::element::ElementId;
use crate::events::{Event, Message, MouseButton, WindowEvent};
use crate::interaction::{ContextView, ZOrderChange};
use crate::pointer::PointerState;
use crate::session::{
    lemma_hover_keeps_links, lemma_pointer_keeps_links, lemma_post_keeps_links,
    lemma_settle_keeps_links, lemma_step, Element, SessionView,
};
use crate::ui::{ConnectionWidget, InputSocket, NodeEvent, OutputSocket};

verus! {

/// While something is pending, settling goes on from the next step.
pub proof fn lemma_settle_continues(session: SessionView)
    requires
        session.wf(),
        session.ctx.queue.len() > 0,
    ensures
        session.settle() == session.step().settle(),
        session.step().wf(),
{
    lemma_step(session);
}

/// When nothing is pending, settling changes nothing.
pub proof fn lemma_settle_done(session: SessionView)
    requires
        session.wf(),
        session.ctx.queue.len() == 0,
    ensures
        session.settle() == session,
{
}

/// A press of the primary button over an output socket, while nothing holds
/// the pointer, makes the socket take the capture and start a drag, raises
/// it, and asks for a redraw. Nothing else changes.
pub proof fn lemma_press_on_output(session: SessionView, output: ElementId)
    requires
        session.wf(),
        session.ctx.queue.len() == 0,
        session.element(output) is Output,
        session.ctx.pointer.delivery_target() == output,
    ensures
        ({
            let socket = session.element(output)->Output_0;
            session.pressed(MouseButton::Left) == SessionView {
                elements: session.elements.update(
                    output.slot(),
                    Element::Output(OutputSocket { connecting: true, snapping: false, ..socket }),
                ),
                ctx: ContextView {
                    pointer: session.ctx.pointer.with_capture(output),
                    queue: Seq::empty(),
                    stacking: session.ctx.stacking.push(ZOrderChange { element: output, z_order: 1 }),
                },
                needs_redraw: true,
            }
        }),
{
    let start = session.fresh().post_pointer(WindowEvent::MouseDown(MouseButton::Left));
    assert(start.ctx.queue.len() == 1);
    lemma_settle_continues(start);
    let pressed = start.step();
    assert(start.ctx.queue.skip(1) =~= Seq::<Event>::empty());
    assert(pressed.ctx.queue =~= seq![redraw_request(output)]);
    lemma_settle_continues(pressed);
    let drawn = pressed.step();
    assert(pressed.ctx.queue.skip(1) =~= Seq::<Event>::empty());
    assert(drawn.ctx.queue =~= Seq::<Event>::empty());
    lemma_settle_done(drawn);
    assert(drawn.elements =~= pressed.elements);
}

/// Whether the cursor can leave the hovered element without breaking a
/// connection: it can, unless that element is an input socket from which a
/// bound wire is being dragged.
pub open spec fn leaves_quietly(session: SessionView) -> bool {
    session.element(session.ctx.pointer.hovered) matches Element::Input(socket) ==> !(
    socket.connecting && !socket.connected_output.is_none())
}

/// Whether an element answers when it is asked if a wire may snap to it:
/// sockets do, nothing else does.
pub open spec fn is_socket(element: Element) -> bool {
    element is Input || element is Output
}

/// A move of the cursor while a wire is dragged from an output socket.
///
/// The socket asks the element now under the cursor whether the wire may
/// snap to it. If that element is a socket, it says yes, and the dragged
/// socket remembers it as its snap target. The wire snaps if the element
/// under the cursor is the target remembered from before. A redraw is asked
/// for. No other element changes.
pub proof fn lemma_drag_from_output(session: SessionView, output: ElementId, over: ElementId)
    requires
        session.wf(),
        session.ctx.queue.len() == 0,
        session.element(output) is Output,
        session.ctx.pointer.captured == output,
        leaves_quietly(session),
    ensures
        ({
            let socket = session.element(output)->Output_0;
            session.moved(over) == SessionView {
                elements: session.elements.update(
                    output.slot(),
                    Element::Output(
                        OutputSocket {
                            snapping: over == socket.snapped_socket,
                            snapped_socket: if is_socket(session.element(over)) {
                                over
                            } else {
                                socket.snapped_socket
                            },
                            ..socket
                        },
                    ),
                ),
                ctx: ContextView {
                    pointer: session.ctx.pointer.with_hover(over),
                    queue: Seq::empty(),
                    stacking: session.ctx.stacking,
                },
                needs_redraw: true,
            }
        }),
{
    let socket = session.element(output)->Output_0;
    let left = session.ctx.pointer.hovered;
    let mut start = session.fresh().hover(over).post_pointer(WindowEvent::MouseMove);
    if over != left {
        assert(start.ctx.queue.len() == 2);
        lemma_settle_continues(start);
        let next = start.step();
        assert(start.ctx.queue.skip(1) =~= seq![
            Event::routed(ElementId::none(), output, Message::Window(WindowEvent::MouseMove)),
        ]);
        if start.has(left) {
            assert(next.elements =~= start.elements);
        }
        assert(next.ctx.queue =~= seq![
            Event::routed(ElementId::none(), output, Message::Window(WindowEvent::MouseMove)),
        ]);
        start = next;
    } else {
        assert(start.ctx.queue =~= seq![
            Event::routed(ElementId::none(), output, Message::Window(WindowEvent::MouseMove)),
        ]);
    }
    assert(start.settle() == session.moved(over));
    assert(start.elements == session.elements);
    assert(start.ctx.pointer == session.ctx.pointer.with_hover(over));
    // The dragged socket probes what is under the cursor.
    let probe = Event::routed(output, over, Message::Node(NodeEvent::TrySnap(output, over)));
    lemma_settle_continues(start);
    let probed = start.step();
    assert(start.ctx.queue.skip(1) =~= Seq::<Event>::empty());
    assert(probed.ctx.queue =~= seq![probe, redraw_request(output)]);
    let dragging = Element::Output(OutputSocket { snapping: over == socket.snapped_socket, ..socket });
    assert(probed.elements == session.elements.update(output.slot(), dragging));
    // What is under the cursor answers, if it is a socket.
    lemma_settle_continues(probed);
    let answered = probed.step();
    assert(probed.ctx.queue.skip(1) =~= seq![redraw_request(output)]);
    assert(answered.elements =~= probed.elements);
    let answer = Event::routed(over, output, Message::Node(NodeEvent::Snap(output, over)));
    if is_socket(session.element(over)) {
        assert(answered.ctx.queue =~= seq![redraw_request(output), answer]);
        lemma_settle_continues(answered);
        let drawn = answered.step();
        assert(answered.ctx.queue.skip(1) =~= seq![answer]);
        assert(drawn.elements =~= answered.elements);
        assert(drawn.ctx.queue =~= seq![answer]);
        lemma_settle_continues(drawn);
        let snapped = drawn.step();
        assert(drawn.ctx.queue.skip(1) =~= Seq::<Event>::empty());
        assert(snapped.ctx.queue =~= Seq::<Event>::empty());
        lemma_settle_done(snapped);
        assert(snapped.elements =~= session.elements.update(
            output.slot(),
            Element::Output(
                OutputSocket {
                    snapping: over == socket.snapped_socket,
                    snapped_socket: over,
                    ..socket
                },
            ),
        ));
    } else {
        assert(answered.ctx.queue =~= seq![redraw_request(output)]);
        lemma_settle_continues(answered);
        let drawn = answered.step();
        assert(answered.ctx.queue.skip(1) =~= Seq::<Event>::empty());
        assert(drawn.elements =~= answered.elements);
        assert(drawn.ctx.queue =~= Seq::<Event>::empty());
        lemma_settle_done(drawn);
    }
}

/// A release of the primary button while a wire is dragged from an output
/// socket.
///
/// The socket gives up the capture, ends the drag, and tells the element
/// under the cursor to bind to it. An input socket does so: it records the
/// output as its peer and its wire follows. Any other element ignores the
/// request. A redraw is asked for. Nothing else changes.
pub proof fn lemma_release_from_output(session: SessionView, output: ElementId)
    requires
        session.wf(),
        session.ctx.queue.len() == 0,
        session.element(output) is Output,
        session.ctx.pointer.captured == output,
    ensures
        ({
            let socket = session.element(output)->Output_0;
            let over = session.ctx.pointer.hovered;
            let dropped = session.elements.update(
                output.slot(),
                Element::Output(OutputSocket { connecting: false, snapping: false, ..socket }),
            );
            session.released(MouseButton::Left) == SessionView {
                elements: if session.element(over) is Input {
                    let input = session.element(over)->Input_0;
                    dropped.update(
                        over.slot(),
                        Element::Input(InputSocket { connected_output: output, ..input }),
                    ).update(
                        input.connection.slot(),
                        Element::Connection(
                            ConnectionWidget { output_socket: output, input_socket: over },
                        ),
                    )
                } else {
                    dropped
                },
                ctx: ContextView {
                    pointer: PointerState { captured: ElementId::none(), hovered: over },
                    queue: Seq::empty(),
                    stacking: session.ctx.stacking.push(ZOrderChange { element: output, z_order: 0 }),
                },
                needs_redraw: true,
            }
        }),
{
    let socket = session.element(output)->Output_0;
    let over = session.ctx.pointer.hovered;
    let start = session.fresh().post_pointer(WindowEvent::MouseUp(MouseButton::Left));
    let tell = Event::routed(output, over, Message::Node(NodeEvent::ConnectOutput));
    assert(start.ctx.queue.len() == 1);
    lemma_settle_continues(start);
    let released = start.step();
    assert(start.ctx.queue.skip(1) =~= Seq::<Event>::empty());
    assert(released.ctx.queue =~= seq![redraw_request(output), tell]);
    lemma_settle_continues(released);
    let drawn = released.step();
    assert(released.ctx.queue.skip(1) =~= seq![tell]);
    assert(drawn.elements =~= released.elements);
    assert(drawn.ctx.queue =~= seq![tell]);
    lemma_settle_continues(drawn);
    let told = drawn.step();
    assert(drawn.ctx.queue.skip(1) =~= Seq::<Event>::empty());
    if let Element::Input(input) = session.element(over) {
        assert(over.slot() != output.slot());
        assert(drawn.elements[over.slot()] == session.elements[over.slot()]);
        let follow = Event::routed(
            over,
            input.connection,
            Message::Node(NodeEvent::ConnectSockets(output)),
        );
        assert(told.ctx.queue =~= seq![follow]);
        assert(session.elements[input.connection.slot()] is Connection);
        lemma_settle_continues(told);
        let bound = told.step();
        assert(told.ctx.queue.skip(1) =~= Seq::<Event>::empty());
        assert(bound.ctx.queue =~= Seq::<Event>::empty());
        lemma_settle_done(bound);
        let wire = session.elements[input.connection.slot()]->Connection_0;
        assert(wire.input_socket.slot() == over.slot());
        assert(wire.input_socket == over);
    } else {
        if drawn.has(over) {
            assert(told.elements =~= drawn.elements);
        }
        assert(told.ctx.queue =~= Seq::<Event>::empty());
        lemma_settle_done(told);
    }
}

/// Settling keeps the session well formed, adds and removes no element, and
/// leaves nothing pending. In particular no input socket ever comes to name
/// itself as its peer, whatever was pending.
pub proof fn lemma_settle_keeps_wf(session: SessionView)
    requires
        session.wf(),
    ensures
        session.settle().wf(),
        session.settle().ctx.queue.len() == 0,
        session.settle().elements.len() == session.elements.len(),
    decreases session.pending_weight(),
{
    if session.ctx.queue.len() > 0 {
        lemma_step(session);
        lemma_settle_keeps_wf(session.step());
    }
}

/// An input socket that handles an event does not come to name itself as
/// its peer: afterwards its peer is the one it had, or none, or another
/// element.
pub proof fn lemma_never_own_peer(
    socket: InputSocket,
    ctx: ContextView,
    entity: ElementId,
    event: Event,
)
    ensures
        ({
            let after = socket.handled(ctx, entity, event).0;
            after.connected_output == socket.connected_output || after.connected_output.is_none()
                || after.connected_output != entity
        }),
{
}

/// A socket ignores a request or an order to connect that it appears to have
/// sent to itself: an output socket does not answer such a request, an input
/// socket does not obey such an order, and neither changes or sends
/// anything.
pub proof fn lemma_own_connection_message_ignored(
    socket: Element,
    ctx: ContextView,
    entity: ElementId,
    target: ElementId,
)
    requires
        is_socket(socket),
    ensures
        socket.handled(
            ctx,
            entity,
            Event::routed(entity, target, Message::Node(NodeEvent::ConnectInput)),
        ) == (socket, ctx),
        socket.handled(
            ctx,
            entity,
            Event::routed(entity, target, Message::Node(NodeEvent::ConnectOutput)),
        ) == (socket, ctx),
{
}

/// A socket that is asked whether a wire may snap to it answers exactly
/// once, to the sender of the question and to no one else, and is itself
/// unchanged.
pub proof fn lemma_try_snap_answered_once(
    socket: Element,
    ctx: ContextView,
    a: ElementId,
    b: ElementId,
)
    requires
        is_socket(socket),
    ensures
        ({
            let question = Event::routed(a, b, Message::Node(NodeEvent::TrySnap(a, b)));
            let answer = Event::routed(b, a, Message::Node(NodeEvent::Snap(a, b)));
            socket.handled(ctx, b, question) == (socket, ctx.post(answer))
        }),
{
}

/// In a session where nothing else is pending, the question whether a wire
/// dragged from `a` may snap to the socket `b` leads to one answer, which
/// reaches `a` alone: if `a` is a socket it remembers `b` as its snap
/// target, and no other element changes.
pub proof fn lemma_try_snap_round_trip(session: SessionView, a: ElementId, b: ElementId)
    requires
        session.wf(),
        session.ctx.queue.len() == 0,
        is_socket(session.element(b)),
    ensures
        ({
            let question = Event::routed(a, b, Message::Node(NodeEvent::TrySnap(a, b)));
            let answer = Event::routed(b, a, Message::Node(NodeEvent::Snap(a, b)));
            let asked = SessionView { ctx: session.ctx.post(question), ..session };
            &&& asked.step() == SessionView { ctx: session.ctx.post(answer), ..session }
            &&& asked.settle() == SessionView {
                elements: match session.element(a) {
                    Element::Input(socket) => session.elements.update(
                        a.slot(),
                        Element::Input(InputSocket { snapped_socket: b, ..socket }),
                    ),
                    Element::Output(socket) => session.elements.update(
                        a.slot(),
                        Element::Output(OutputSocket { snapped_socket: b, ..socket }),
                    ),
                    _ => session.elements,
                },
                ..session
            }
        }),
{
    let question = Event::routed(a, b, Message::Node(NodeEvent::TrySnap(a, b)));
    let answer = Event::routed(b, a, Message::Node(NodeEvent::Snap(a, b)));
    let asked = SessionView { ctx: session.ctx.post(question), ..session };
    lemma_settle_continues(asked);
    let answered = asked.step();
    assert(asked.ctx.queue.skip(1) =~= Seq::<Event>::empty());
    assert(answered.elements =~= session.elements);
    assert(answered.ctx.queue =~= session.ctx.queue.push(answer));
    lemma_settle_continues(answered);
    let heard = answered.step();
    assert(answered.ctx.queue.skip(1) =~= Seq::<Event>::empty());
    assert(heard.ctx.queue =~= Seq::<Event>::empty());
    lemma_settle_done(heard);
    assert(heard.ctx.queue =~= session.ctx.queue);
    if session.has(a) {
        match session.element(a) {
            Element::Input(_) => {},
            Element::Output(_) => {},
            _ => {
                assert(heard.elements =~= session.elements);
            },
        }
    }
}

/// A full drag from an output socket to an input socket connects them.
///
/// With nothing captured and the cursor over the output socket: after a
/// press of the primary button, a move that brings the cursor over the
/// input socket, and a release, the input socket names the output socket as
/// its peer and so does the wire it owns. The capture has been given up and
/// nothing is pending.
pub proof fn lemma_drag_connects(session: SessionView, output: ElementId, input: ElementId)
    requires
        session.wf(),
        session.ctx.queue.len() == 0,
        session.element(output) is Output,
        session.element(input) is Input,
        session.ctx.pointer.captured.is_none(),
        session.ctx.pointer.hovered == output,
    ensures
        ({
            let end = session.pressed(MouseButton::Left).moved(input).released(MouseButton::Left);
            &&& end.wf()
            &&& end.element(input) matches Element::Input(socket)
            &&& socket.connected_output == output
            &&& end.element(socket.connection) matches Element::Connection(wire)
            &&& wire.output_socket == output
            &&& wire.input_socket == input
            &&& end.element(output) matches Element::Output(source)
            &&& !source.connecting
            &&& end.ctx.pointer.captured.is_none()
            &&& end.ctx.queue.len() == 0
        }),
{
    let button = MouseButton::Left;
    lemma_press_on_output(session, output);
    lemma_settle_keeps_wf(session.fresh().post_pointer(WindowEvent::MouseDown(button)));
    let pressed = session.pressed(button);
    lemma_drag_from_output(pressed, output, input);
    lemma_settle_keeps_wf(pressed.fresh().hover(input).post_pointer(WindowEvent::MouseMove));
    let moved = pressed.moved(input);
    assert(moved.element(input) == session.element(input));
    lemma_release_from_output(moved, output);
    lemma_settle_keeps_wf(moved.fresh().post_pointer(WindowEvent::MouseUp(button)));
}

/// A drag from an output socket that ends anywhere but over an input socket
/// connects nothing.
///
/// With nothing captured and the cursor over the output socket: after a
/// press of the primary button, a move that brings the cursor over an
/// element that is not an input socket, and a release, every element other
/// than the dragged socket is exactly as it was, so no socket has recorded a
/// peer. The dragged socket is idle again, the capture has been given up and
/// nothing is pending.
pub proof fn lemma_drag_into_empty_space(session: SessionView, output: ElementId, over: ElementId)
    requires
        session.wf(),
        session.ctx.queue.len() == 0,
        session.element(output) is Output,
        !(session.element(over) is Input),
        session.ctx.pointer.captured.is_none(),
        session.ctx.pointer.hovered == output,
    ensures
        ({
            let end = session.pressed(MouseButton::Left).moved(over).released(MouseButton::Left);
            &&& end.wf()
            &&& end.elements.len() == session.elements.len()
            &&& forall|i: int|
                0 <= i < end.elements.len() && i != output.slot() ==> end.elements[i]
                    == session.elements[i]
            &&& end.element(output) matches Element::Output(source)
            &&& !source.connecting
            &&& end.ctx.pointer.captured.is_none()
            &&& end.ctx.queue.len() == 0
        }),
{
    let button = MouseButton::Left;
    lemma_press_on_output(session, output);
    lemma_settle_keeps_wf(session.fresh().post_pointer(WindowEvent::MouseDown(button)));
    let pressed = session.pressed(button);
    lemma_drag_from_output(pressed, output, over);
    lemma_settle_keeps_wf(pressed.fresh().hover(over).post_pointer(WindowEvent::MouseMove));
    let moved = pressed.moved(over);
    if over != output {
        assert(moved.element(over) == session.element(over));
    }
    lemma_release_from_output(moved, output);
    lemma_settle_keeps_wf(moved.fresh().post_pointer(WindowEvent::MouseUp(button)));
}

/// Pulling a wire off the input socket it is bound to.
///
/// While a wire is dragged from an input socket that is bound to an output
/// socket, and the cursor is over the input socket: when the cursor leaves
/// it, the input socket forgets its peer and ends its drag, its wire is
/// unbound, and the output socket takes over: it holds the capture and a
/// wire is now dragged from it. A redraw is asked for. No other element
/// changes.
pub proof fn lemma_pull_wire_loose(
    session: SessionView,
    input: ElementId,
    output: ElementId,
    over: ElementId,
)
    requires
        session.wf(),
        session.ctx.queue.len() == 0,
        session.element(input) matches Element::Input(socket) && socket.connecting
            && socket.connected_output == output,
        session.element(output) is Output,
        session.ctx.pointer.hovered == input,
        over != input,
    ensures
        ({
            let socket = session.element(input)->Input_0;
            let source = session.element(output)->Output_0;
            let wire = session.element(socket.connection)->Connection_0;
            session.fresh().hover(over).settle() == SessionView {
                elements: session.elements.update(
                    input.slot(),
                    Element::Input(
                        InputSocket {
                            connecting: false,
                            connected_output: ElementId::none(),
                            ..socket
                        },
                    ),
                ).update(
                    output.slot(),
                    Element::Output(OutputSocket { connecting: true, snapping: false, ..source }),
                ).update(
                    socket.connection.slot(),
                    Element::Connection(
                        ConnectionWidget { output_socket: ElementId::none(), ..wire },
                    ),
                ),
                ctx: ContextView {
                    pointer: PointerState { captured: output, hovered: over },
                    queue: Seq::empty(),
                    stacking: session.ctx.stacking,
                },
                needs_redraw: true,
            }
        }),
{
    let socket = session.element(input)->Input_0;
    let source = session.element(output)->Output_0;
    let link = socket.connection;
    assert(session.elements[link.slot()] is Connection);
    let wire = session.elements[link.slot()]->Connection_0;
    let to_self = Event::routed(input, input, Message::Node(NodeEvent::Disconnect));
    let to_peer = Event::routed(input, output, Message::Node(NodeEvent::Disconnect));
    let to_wire = Event::routed(input, link, Message::Node(NodeEvent::Disconnect));
    let redraw = redraw_request(output);
    let start = session.fresh().hover(over);
    assert(start.ctx.queue.len() == 1);
    // The input socket notices that the cursor has left it.
    lemma_settle_continues(start);
    let pulled = start.step();
    assert(start.ctx.queue.skip(1) =~= Seq::<Event>::empty());
    assert(pulled.ctx.queue =~= seq![to_self, to_peer]);
    let loose = Element::Input(InputSocket { connecting: false, ..socket });
    assert(pulled.elements == session.elements.update(input.slot(), loose));
    // It forgets its peer and tells its wire.
    lemma_settle_continues(pulled);
    let forgot = pulled.step();
    assert(pulled.ctx.queue.skip(1) =~= seq![to_peer]);
    assert(forgot.ctx.queue =~= seq![to_peer, to_wire]);
    let free = Element::Input(
        InputSocket { connecting: false, connected_output: ElementId::none(), ..socket },
    );
    assert(forgot.elements =~= session.elements.update(input.slot(), free));
    // The output socket takes the wire over.
    lemma_settle_continues(forgot);
    let grabbed = forgot.step();
    assert(forgot.ctx.queue.skip(1) =~= seq![to_wire]);
    assert(grabbed.ctx.queue =~= seq![to_wire, redraw]);
    let held = Element::Output(OutputSocket { connecting: true, snapping: false, ..source });
    assert(forgot.elements[output.slot()] == session.elements[output.slot()]);
    assert(grabbed.elements == session.elements.update(input.slot(), free).update(
        output.slot(),
        held,
    ));
    // The wire is unbound.
    lemma_settle_continues(grabbed);
    let unbound = grabbed.step();
    assert(grabbed.ctx.queue.skip(1) =~= seq![redraw]);
    assert(unbound.ctx.queue =~= seq![redraw]);
    assert(grabbed.elements[link.slot()] == session.elements[link.slot()]);
    // The window is drawn again.
    lemma_settle_continues(unbound);
    let drawn = unbound.step();
    assert(unbound.ctx.queue.skip(1) =~= Seq::<Event>::empty());
    assert(drawn.ctx.queue =~= Seq::<Event>::empty());
    assert(drawn.elements =~= unbound.elements);
    lemma_settle_done(drawn);
}

/// A press of the primary button over an input socket, while nothing holds
/// the pointer, makes the socket take the capture and start a drag, raises
/// it, and asks for a redraw. Nothing else changes; in particular a peer
/// that the socket is bound to stays recorded.
pub proof fn lemma_press_on_input(session: SessionView, input: ElementId)
    requires
        session.wf(),
        session.ctx.queue.len() == 0,
        session.element(input) is Input,
        session.ctx.pointer.delivery_target() == input,
    ensures
        ({
            let socket = session.element(input)->Input_0;
            session.pressed(MouseButton::Left) == SessionView {
                elements: session.elements.update(
                    input.slot(),
                    Element::Input(InputSocket { connecting: true, snapping: false, ..socket }),
                ),
                ctx: ContextView {
                    pointer: session.ctx.pointer.with_capture(input),
                    queue: Seq::empty(),
                    stacking: session.ctx.stacking.push(ZOrderChange { element: input, z_order: 1 }),
                },
                needs_redraw: true,
            }
        }),
{
    let start = session.fresh().post_pointer(WindowEvent::MouseDown(MouseButton::Left));
    assert(start.ctx.queue.len() == 1);
    lemma_settle_continues(start);
    let pressed = start.step();
    assert(start.ctx.queue.skip(1) =~= Seq::<Event>::empty());
    assert(pressed.ctx.queue =~= seq![redraw_request(input)]);
    lemma_settle_continues(pressed);
    let drawn = pressed.step();
    assert(pressed.ctx.queue.skip(1) =~= Seq::<Event>::empty());
    assert(drawn.ctx.queue =~= Seq::<Event>::empty());
    lemma_settle_done(drawn);
    assert(drawn.elements =~= pressed.elements);
}

/// A move of the cursor while a wire is dragged from an input socket, in a
/// case where the cursor leaves no bound socket behind.
///
/// The exchange is the one that an output socket has: the element under the
/// cursor is asked, a socket says yes and is remembered as the snap target,
/// and the wire snaps if the element under the cursor is the target
/// remembered from before. A redraw is asked for. No other element changes.
pub proof fn lemma_drag_from_input(session: SessionView, input: ElementId, over: ElementId)
    requires
        session.wf(),
        session.ctx.queue.len() == 0,
        session.element(input) is Input,
        session.ctx.pointer.captured == input,
        leaves_quietly(session),
    ensures
        ({
            let socket = session.element(input)->Input_0;
            session.moved(over) == SessionView {
                elements: session.elements.update(
                    input.slot(),
                    Element::Input(
                        InputSocket {
                            snapping: over == socket.snapped_socket,
                            snapped_socket: if is_socket(session.element(over)) {
                                over
                            } else {
                                socket.snapped_socket
                            },
                            ..socket
                        },
                    ),
                ),
                ctx: ContextView {
                    pointer: session.ctx.pointer.with_hover(over),
                    queue: Seq::empty(),
                    stacking: session.ctx.stacking,
                },
                needs_redraw: true,
            }
        }),
{
    let socket = session.element(input)->Input_0;
    let left = session.ctx.pointer.hovered;
    let motion = Event::routed(ElementId::none(), input, Message::Window(WindowEvent::MouseMove));
    let mut start = session.fresh().hover(over).post_pointer(WindowEvent::MouseMove);
    if over != left {
        assert(start.ctx.queue.len() == 2);
        lemma_settle_continues(start);
        let next = start.step();
        assert(start.ctx.queue.skip(1) =~= seq![motion]);
        if start.has(left) {
            assert(next.elements =~= start.elements);
        }
        assert(next.ctx.queue =~= seq![motion]);
        start = next;
    } else {
        assert(start.ctx.queue =~= seq![motion]);
    }
    assert(start.settle() == session.moved(over));
    assert(start.elements == session.elements);
    assert(start.ctx.pointer == session.ctx.pointer.with_hover(over));
    // The dragged socket probes what is under the cursor.
    let probe = Event::routed(input, over, Message::Node(NodeEvent::TrySnap(input, over)));
    lemma_settle_continues(start);
    let probed = start.step();
    assert(start.ctx.queue.skip(1) =~= Seq::<Event>::empty());
    assert(probed.ctx.queue =~= seq![probe, redraw_request(input)]);
    let dragging = Element::Input(InputSocket { snapping: over == socket.snapped_socket, ..socket });
    assert(probed.elements == session.elements.update(input.slot(), dragging));
    // What is under the cursor answers, if it is a socket.
    lemma_settle_continues(probed);
    let answered = probed.step();
    assert(probed.ctx.queue.skip(1) =~= seq![redraw_request(input)]);
    assert(answered.elements =~= probed.elements);
    let answer = Event::routed(over, input, Message::Node(NodeEvent::Snap(input, over)));
    if is_socket(session.element(over)) {
        assert(answered.ctx.queue =~= seq![redraw_request(input), answer]);
        lemma_settle_continues(answered);
        let drawn = answered.step();
        assert(answered.ctx.queue.skip(1) =~= seq![answer]);
        assert(drawn.elements =~= answered.elements);
        assert(drawn.ctx.queue =~= seq![answer]);
        lemma_settle_continues(drawn);
        let snapped = drawn.step();
        assert(drawn.ctx.queue.skip(1) =~= Seq::<Event>::empty());
        assert(snapped.ctx.queue =~= Seq::<Event>::empty());
        lemma_settle_done(snapped);
        assert(snapped.elements =~= session.elements.update(
            input.slot(),
            Element::Input(
                InputSocket {
                    snapping: over == socket.snapped_socket,
                    snapped_socket: over,
                    ..socket
                },
            ),
        ));
    } else {
        assert(answered.ctx.queue =~= seq![redraw_request(input)]);
        lemma_settle_continues(answered);
        let drawn = answered.step();
        assert(answered.ctx.queue.skip(1) =~= Seq::<Event>::empty());
        assert(drawn.elements =~= answered.elements);
        assert(drawn.ctx.queue =~= Seq::<Event>::empty());
        lemma_settle_done(drawn);
    }
}

/// A release of the primary button while a wire is dragged from an input
/// socket.
///
/// The socket ends the drag, gives up the capture, and asks the element
/// under the cursor to connect. An output socket answers by telling the
/// input to bind to it, so the input records the output as its peer and its
/// wire follows. Any other element ignores the request. A redraw is asked
/// for. Nothing else changes.
pub proof fn lemma_release_from_input(session: SessionView, input: ElementId)
    requires
        session.wf(),
        session.ctx.queue.len() == 0,
        session.element(input) matches Element::Input(socket) && socket.connecting,
        session.ctx.pointer.captured == input,
    ensures
        ({
            let socket = session.element(input)->Input_0;
            let over = session.ctx.pointer.hovered;
            let dropped = InputSocket { connecting: false, snapping: false, ..socket };
            session.released(MouseButton::Left) == SessionView {
                elements: if session.element(over) is Output {
                    session.elements.update(
                        input.slot(),
                        Element::Input(InputSocket { connected_output: over, ..dropped }),
                    ).update(
                        socket.connection.slot(),
                        Element::Connection(
                            ConnectionWidget { output_socket: over, input_socket: input },
                        ),
                    )
                } else {
                    session.elements.update(input.slot(), Element::Input(dropped))
                },
                ctx: ContextView {
                    pointer: PointerState { captured: ElementId::none(), hovered: over },
                    queue: Seq::empty(),
                    stacking: session.ctx.stacking.push(ZOrderChange { element: input, z_order: 0 }),
                },
                needs_redraw: true,
            }
        }),
{
    let socket = session.element(input)->Input_0;
    let over = session.ctx.pointer.hovered;
    let link = socket.connection;
    assert(session.elements[link.slot()] is Connection);
    let wire = session.elements[link.slot()]->Connection_0;
    assert(wire.input_socket == input);
    let dropped = InputSocket { connecting: false, snapping: false, ..socket };
    let start = session.fresh().post_pointer(WindowEvent::MouseUp(MouseButton::Left));
    let ask = Event::routed(input, over, Message::Node(NodeEvent::ConnectInput));
    assert(start.ctx.queue.len() == 1);
    lemma_settle_continues(start);
    let released = start.step();
    assert(start.ctx.queue.skip(1) =~= Seq::<Event>::empty());
    assert(released.ctx.queue =~= seq![redraw_request(input), ask]);
    assert(released.elements == session.elements.update(input.slot(), Element::Input(dropped)));
    lemma_settle_continues(released);
    let drawn = released.step();
    assert(released.ctx.queue.skip(1) =~= seq![ask]);
    assert(drawn.elements =~= released.elements);
    assert(drawn.ctx.queue =~= seq![ask]);
    lemma_settle_continues(drawn);
    let asked = drawn.step();
    assert(drawn.ctx.queue.skip(1) =~= Seq::<Event>::empty());
    if session.element(over) is Output {
        assert(over.slot() != input.slot());
        assert(drawn.elements[over.slot()] == session.elements[over.slot()]);
        let tell = Event::routed(over, input, Message::Node(NodeEvent::ConnectOutput));
        assert(asked.ctx.queue =~= seq![tell]);
        assert(asked.elements =~= drawn.elements);
        lemma_settle_continues(asked);
        let told = asked.step();
        assert(asked.ctx.queue.skip(1) =~= Seq::<Event>::empty());
        let follow = Event::routed(input, link, Message::Node(NodeEvent::ConnectSockets(over)));
        assert(told.ctx.queue =~= seq![follow]);
        assert(told.elements =~= session.elements.update(
            input.slot(),
            Element::Input(InputSocket { connected_output: over, ..dropped }),
        ));
        lemma_settle_continues(told);
        let bound = told.step();
        assert(told.ctx.queue.skip(1) =~= Seq::<Event>::empty());
        assert(bound.ctx.queue =~= Seq::<Event>::empty());
        assert(told.elements[link.slot()] == session.elements[link.slot()]);
        lemma_settle_done(bound);
    } else {
        if drawn.has(over) {
            assert(asked.elements =~= drawn.elements);
        }
        assert(asked.ctx.queue =~= Seq::<Event>::empty());
        lemma_settle_done(asked);
    }
}

/// A full drag from an unbound input socket to an output socket connects
/// them, just as a drag in the other direction does.
///
/// With nothing captured and the cursor over the input socket: after a
/// press of the primary button, a move that brings the cursor over the
/// output socket, and a release, the input socket names the output socket
/// as its peer and so does the wire it owns. The capture has been given up
/// and nothing is pending.
pub proof fn lemma_drag_from_input_connects(
    session: SessionView,
    input: ElementId,
    output: ElementId,
)
    requires
        session.wf(),
        session.ctx.queue.len() == 0,
        session.element(input) matches Element::Input(socket) && socket.connected_output.is_none(),
        session.element(output) is Output,
        session.ctx.pointer.captured.is_none(),
        session.ctx.pointer.hovered == input,
    ensures
        ({
            let end = session.pressed(MouseButton::Left).moved(output).released(MouseButton::Left);
            &&& end.wf()
            &&& end.element(input) matches Element::Input(socket)
            &&& socket.connected_output == output
            &&& !socket.connecting
            &&& end.element(socket.connection) matches Element::Connection(wire)
            &&& wire.output_socket == output
            &&& wire.input_socket == input
            &&& end.element(output) == session.element(output)
            &&& end.ctx.pointer.captured.is_none()
            &&& end.ctx.queue.len() == 0
        }),
{
    let button = MouseButton::Left;
    lemma_press_on_input(session, input);
    lemma_settle_keeps_wf(session.fresh().post_pointer(WindowEvent::MouseDown(button)));
    let pressed = session.pressed(button);
    lemma_drag_from_input(pressed, input, output);
    lemma_settle_keeps_wf(pressed.fresh().hover(output).post_pointer(WindowEvent::MouseMove));
    let moved = pressed.moved(output);
    assert(moved.element(output) == session.element(output));
    lemma_release_from_input(moved, input);
    lemma_settle_keeps_wf(moved.fresh().post_pointer(WindowEvent::MouseUp(button)));
    let socket = session.element(input)->Input_0;
    assert(session.elements[socket.connection.slot()] is Connection);
}

/// Between two inputs, the records of a connection agree.
///
/// In a settled session every input socket owns a wire that names it, the
/// wire names the very output that the socket names as its peer, and that
/// peer, if there is one, is an output socket: never the input socket
/// itself, and never anything that is not a socket.
pub proof fn lemma_wires_mirror_peers(session: SessionView, input: ElementId)
    requires
        session.settled(),
        session.element(input) is Input,
    ensures
        ({
            let socket = session.element(input)->Input_0;
            &&& session.element(socket.connection) matches Element::Connection(wire)
            &&& wire.input_socket == input
            &&& wire.output_socket == socket.connected_output
            &&& socket.connected_output != input
            &&& socket.connected_output.is_none() || session.element(socket.connected_output)
                is Output
        }),
{
    let socket = session.elements[input.slot()]->Input_0;
    assert(session.elements[socket.connection.slot()] is Connection);
}

/// Every input leaves the session settled again.
///
/// Whatever button is pressed or released, wherever the cursor moves, and
/// whatever admissible message is sent in: once all that follows has been
/// handled, the session is well formed, its records agree, and nothing is
/// pending.
pub proof fn lemma_inputs_settle(
    session: SessionView,
    button: MouseButton,
    over: ElementId,
    event: Event,
)
    requires
        session.settled(),
    ensures
        session.pressed(button).settled(),
        session.released(button).settled(),
        session.moved(over).settled(),
        session.fresh().hover(over).settle().settled(),
        session.admits(event) ==> session.sent(event).settled(),
{
    let fresh = session.fresh();
    assert(fresh.wf() && fresh.linked());
    lemma_pointer_keeps_links(fresh, WindowEvent::MouseDown(button));
    lemma_settle_keeps_links(fresh.post_pointer(WindowEvent::MouseDown(button)));
    lemma_pointer_keeps_links(fresh, WindowEvent::MouseUp(button));
    lemma_settle_keeps_links(fresh.post_pointer(WindowEvent::MouseUp(button)));
    lemma_hover_keeps_links(fresh, over);
    lemma_settle_keeps_links(fresh.hover(over));
    lemma_pointer_keeps_links(fresh.hover(over), WindowEvent::MouseMove);
    lemma_settle_keeps_links(fresh.hover(over).post_pointer(WindowEvent::MouseMove));
    if session.admits(event) {
        assert(fresh.admits(event));
        lemma_post_keeps_links(fresh, event);
        lemma_settle_keeps_links(SessionView { ctx: fresh.ctx.post(event), ..fresh });
    }
}

} // verus!
