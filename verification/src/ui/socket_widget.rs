//! Sockets and the wires between them.
//!
//! A wire is made by dragging from one socket and releasing over another.
//! The record of a connection lives on the input side alone: an input socket
//! names the output it is bound to, and the wire it owns mirrors that name
//! for drawing. An output socket keeps no record, so any number of inputs
//! may be bound to it.

use vstd::prelude::*;
use crate::element::ElementId;
use crate::events::{Event, Message, MouseButton, WindowEvent};
use crate::interaction::{ContextView, InteractionContext};
use crate::ui::NodeEvent;

verus! {

/// Where a socket stands in the connection protocol.
#[derive(Clone, Copy, Debug, PartialEq, Eq, Structural)]
pub enum SocketPhase {
    /// Nothing is going on.
    Idle,
    /// A wire is being dragged from the socket.
    Connecting,
    /// A wire is being dragged and a socket that accepts it is under the
    /// cursor.
    Snapping,
    /// The socket is bound to a peer and no drag is in progress.
    Connected,
}

/// Where the loose end of a dragged wire is drawn.
#[derive(Clone, Copy, Debug, PartialEq, Eq, Structural)]
pub enum WireEnd {
    /// At the cursor.
    Cursor,
    /// At the centre of the given socket.
    Socket(ElementId),
}

/// The wire between an output socket and the input socket that owns it.
#[derive(Clone, Copy, Debug, PartialEq, Eq, Structural)]
pub struct ConnectionWidget {
    /// The output socket the wire is bound to, or the null handle.
    pub output_socket: ElementId,
    /// The input socket that owns the wire.
    pub input_socket: ElementId,
}

impl ConnectionWidget {
    /// The wire after it has received `event`: it follows what its owner
    /// tells it and ignores everything else.
    pub open spec fn handled(self, event: Event) -> ConnectionWidget {
        match event.message {
            Message::Node(NodeEvent::ConnectSockets(output)) => ConnectionWidget {
                output_socket: output,
                input_socket: self.input_socket,
            },
            Message::Node(NodeEvent::Disconnect) => ConnectionWidget {
                output_socket: ElementId::none(),
                input_socket: self.input_socket,
            },
            _ => self,
        }
    }

    /// The two ends between which the wire is drawn, output first; `None`
    /// while the wire is not bound at both ends.
    pub open spec fn span(self) -> Option<(ElementId, ElementId)> {
        if !self.input_socket.is_none() && !self.output_socket.is_none() {
            Some((self.output_socket, self.input_socket))
        } else {
            None
        }
    }

    /// An unbound wire owned by `input_socket`.
    pub fn new(input_socket: ElementId) -> (wire: ConnectionWidget)
        ensures
            wire.input_socket == input_socket,
            wire.output_socket == ElementId::none(),
    {
        ConnectionWidget { input_socket, output_socket: ElementId::null() }
    }

    /// Called once when the wire enters the tree as `entity`: wires are drawn
    /// below everything else.
    pub fn on_build(&mut self, ctx: &mut InteractionContext, entity: ElementId) -> (built: ElementId)
        ensures
            built == entity,
            *final(self) == *old(self),
            final(ctx)@ == old(ctx)@.restack(entity, -1i32),
    {
        ctx.set_z_order(entity, -1);
        entity
    }

    /// Handles one event delivered to the wire.
    pub fn on_event(&mut self, ctx: &mut InteractionContext, entity: ElementId, event: &Event)
        ensures
            *final(self) == old(self).handled(*event),
            final(ctx)@ == old(ctx)@,
    {
        match event.message {
            Message::Node(NodeEvent::ConnectSockets(output)) => {
                self.output_socket = output;
            },
            Message::Node(NodeEvent::Disconnect) => {
                self.output_socket = ElementId::null();
            },
            _ => {},
        }
    }

    /// The sockets between which the wire is to be drawn on this frame,
    /// output first.
    pub fn endpoints(&self) -> (ends: Option<(ElementId, ElementId)>)
        ensures
            ends == self.span(),
    {
        if !self.input_socket.is_null() && !self.output_socket.is_null() {
            Some((self.output_socket, self.input_socket))
        } else {
            None
        }
    }
}

/// A socket that receives a signal. It can be bound to one output socket at
/// a time.
#[derive(Clone, Copy, Debug, PartialEq, Eq, Structural)]
pub struct InputSocket {
    /// True while the user drags a wire from or through this socket.
    pub connecting: bool,
    /// The wire owned by this socket.
    pub connection: ElementId,
    /// The output socket this input is bound to, or the null handle.
    pub connected_output: ElementId,
    /// The socket that last confirmed it would accept the dragged wire.
    pub snapped_socket: ElementId,
    /// True while the dragged wire snaps to the socket under the cursor.
    pub snapping: bool,
}

impl InputSocket {
    /// Where the socket stands in the protocol.
    pub open spec fn phase(self) -> SocketPhase {
        if self.connecting {
            if self.snapping {
                SocketPhase::Snapping
            } else {
                SocketPhase::Connecting
            }
        } else if !self.connected_output.is_none() {
            SocketPhase::Connected
        } else {
            SocketPhase::Idle
        }
    }

    /// Where the loose end of the dragged wire is drawn; `None` when no
    /// drag is in progress.
    pub open spec fn loose_end(self) -> Option<WireEnd> {
        if self.connecting {
            if self.snapping {
                Some(WireEnd::Socket(self.snapped_socket))
            } else {
                Some(WireEnd::Cursor)
            }
        } else {
            None
        }
    }

    /// Primary button pressed: take the capture and start dragging.
    pub open spec fn pressed(self, ctx: ContextView, entity: ElementId) -> (InputSocket, ContextView) {
        (
            InputSocket { connecting: true, snapping: false, ..self },
            ctx.capture(entity).redraw(entity).restack(entity, 1),
        )
    }

    /// Primary button released: end the drag, ask whatever is under the
    /// cursor to connect, and give up the capture.
    pub open spec fn released(self, ctx: ContextView, entity: ElementId) -> (InputSocket, ContextView) {
        if self.connecting {
            (
                InputSocket { connecting: false, snapping: false, ..self },
                ctx.redraw(entity).emit(
                    entity,
                    ctx.pointer.hovered,
                    Message::Node(NodeEvent::ConnectInput),
                ).restack(entity, 0).release(entity),
            )
        } else {
            (self, ctx.release(entity))
        }
    }

    /// Cursor moved: ask whatever is under it whether the wire may snap
    /// there, and note whether it is the socket that last said yes.
    pub open spec fn moved(self, ctx: ContextView, entity: ElementId) -> (InputSocket, ContextView) {
        let hovered = ctx.pointer.hovered;
        (
            InputSocket { snapping: hovered == self.snapped_socket, ..self },
            ctx.emit(entity, hovered, Message::Node(NodeEvent::TrySnap(entity, hovered))).redraw(
                entity,
            ),
        )
    }

    /// Cursor left the socket: if a bound wire is being dragged, this pulls
    /// it loose.
    pub open spec fn left(self, ctx: ContextView, entity: ElementId) -> (InputSocket, ContextView) {
        if !self.connected_output.is_none() && self.connecting {
            (
                InputSocket { connecting: false, ..self },
                ctx.emit(entity, entity, Message::Node(NodeEvent::Disconnect)).emit(
                    entity,
                    self.connected_output,
                    Message::Node(NodeEvent::Disconnect),
                ),
            )
        } else {
            (self, ctx)
        }
    }

    /// An output socket told this input to bind to it: record the peer and
    /// tell the wire.
    pub open spec fn bound(self, ctx: ContextView, entity: ElementId, peer: ElementId) -> (
        InputSocket,
        ContextView,
    ) {
        (
            InputSocket { connected_output: peer, ..self },
            ctx.emit(entity, self.connection, Message::Node(NodeEvent::ConnectSockets(peer))),
        )
    }

    /// The connection is broken: forget the peer and tell the wire.
    pub open spec fn unbound(self, ctx: ContextView, entity: ElementId) -> (InputSocket, ContextView) {
        (
            InputSocket { connected_output: ElementId::none(), ..self },
            ctx.emit(entity, self.connection, Message::Node(NodeEvent::Disconnect)),
        )
    }

    /// The socket and the context after the socket, known as `entity`, has
    /// handled `event`.
    pub open spec fn handled(self, ctx: ContextView, entity: ElementId, event: Event) -> (
        InputSocket,
        ContextView,
    ) {
        match event.message {
            Message::Window(WindowEvent::MouseDown(MouseButton::Left)) => self.pressed(ctx, entity),
            Message::Window(WindowEvent::MouseUp(MouseButton::Left)) => self.released(ctx, entity),
            Message::Window(WindowEvent::MouseMove) => if event.target == entity {
                self.moved(ctx, entity)
            } else {
                (self, ctx)
            },
            Message::Window(WindowEvent::MouseOut) => self.left(ctx, entity),
            Message::Node(NodeEvent::ConnectOutput) => if event.target == entity && event.origin
                != entity {
                self.bound(ctx, entity, event.origin)
            } else {
                (self, ctx)
            },
            Message::Node(NodeEvent::Snap(_, output)) => (
                InputSocket { snapped_socket: output, ..self },
                ctx,
            ),
            Message::Node(NodeEvent::TrySnap(input, output)) => (
                self,
                ctx.emit(entity, event.origin, Message::Node(NodeEvent::Snap(input, output))),
            ),
            Message::Node(NodeEvent::Disconnect) => if event.target == entity {
                self.unbound(ctx, entity)
            } else {
                (self, ctx)
            },
            _ => (self, ctx),
        }
    }

    /// An idle socket with no wire and no peer.
    pub fn new() -> (socket: InputSocket)
        ensures
            socket == (InputSocket {
                connecting: false,
                connection: ElementId::none(),
                connected_output: ElementId::none(),
                snapped_socket: ElementId::none(),
                snapping: false,
            }),
            socket.phase() == SocketPhase::Idle,
    {
        InputSocket {
            connecting: false,
            connection: ElementId::null(),
            connected_output: ElementId::null(),
            snapping: false,
            snapped_socket: ElementId::null(),
        }
    }

    /// Handles one event delivered to the socket known as `entity`.
    ///
    /// Whatever the event, the socket never comes to name itself as its
    /// peer; an order to bind whose sender is the socket itself is ignored.
    pub fn on_event(&mut self, ctx: &mut InteractionContext, entity: ElementId, event: &Event)
        ensures
            (*final(self), final(ctx)@) == old(self).handled(old(ctx)@, entity, *event),
            final(self).connection == old(self).connection,
            final(self).connected_output == old(self).connected_output
                || final(self).connected_output.is_none()
                || final(self).connected_output != entity,
            event.message == Message::Node(NodeEvent::ConnectOutput) && event.origin == entity
                ==> *final(self) == *old(self) && final(ctx)@ == old(ctx)@,
    {
        match event.message {
            Message::Window(WindowEvent::MouseDown(MouseButton::Left)) => {
                ctx.capture(entity);
                self.connecting = true;
                self.snapping = false;
                ctx.request_redraw(entity);
                ctx.set_z_order(entity, 1);
            },
            Message::Window(WindowEvent::MouseUp(MouseButton::Left)) => {
                if self.connecting {
                    self.connecting = false;
                    self.snapping = false;
                    ctx.request_redraw(entity);
                    let hovered = ctx.hovered();
                    ctx.emit(entity, hovered, Message::Node(NodeEvent::ConnectInput));
                    ctx.set_z_order(entity, 0);
                }
                ctx.release(entity);
            },
            Message::Window(WindowEvent::MouseMove) => {
                if event.target == entity {
                    let hovered = ctx.hovered();
                    ctx.emit(entity, hovered, Message::Node(NodeEvent::TrySnap(entity, hovered)));
                    ctx.request_redraw(entity);
                    self.snapping = hovered == self.snapped_socket;
                }
            },
            Message::Window(WindowEvent::MouseOut) => {
                if !self.connected_output.is_null() && self.connecting {
                    ctx.emit(entity, entity, Message::Node(NodeEvent::Disconnect));
                    ctx.emit(entity, self.connected_output, Message::Node(NodeEvent::Disconnect));
                    self.connecting = false;
                }
            },
            Message::Node(NodeEvent::ConnectOutput) => {
                if event.target == entity && event.origin != entity {
                    self.connected_output = event.origin;
                    ctx.emit(
                        entity,
                        self.connection,
                        Message::Node(NodeEvent::ConnectSockets(event.origin)),
                    );
                }
            },
            Message::Node(NodeEvent::Snap(_, output)) => {
                self.snapped_socket = output;
            },
            Message::Node(NodeEvent::TrySnap(input, output)) => {
                ctx.emit(entity, event.origin, Message::Node(NodeEvent::Snap(input, output)));
            },
            Message::Node(NodeEvent::Disconnect) => {
                if event.target == entity {
                    ctx.emit(entity, self.connection, Message::Node(NodeEvent::Disconnect));
                    self.connected_output = ElementId::null();
                }
            },
            _ => {},
        }
    }

    /// Where the loose end of the dragged wire is to be drawn on this frame;
    /// `None` when no drag is in progress.
    pub fn wire_end(&self) -> (end: Option<WireEnd>)
        ensures
            end == self.loose_end(),
    {
        if self.connecting {
            if self.snapping {
                Some(WireEnd::Socket(self.snapped_socket))
            } else {
                Some(WireEnd::Cursor)
            }
        } else {
            None
        }
    }

    /// Where the socket stands in the protocol.
    pub fn current_phase(&self) -> (phase: SocketPhase)
        ensures
            phase == self.phase(),
    {
        if self.connecting {
            if self.snapping {
                SocketPhase::Snapping
            } else {
                SocketPhase::Connecting
            }
        } else if !self.connected_output.is_null() {
            SocketPhase::Connected
        } else {
            SocketPhase::Idle
        }
    }
}

/// A socket that gives a signal. It keeps no record of the inputs bound to
/// it.
#[derive(Clone, Copy, Debug, PartialEq, Eq, Structural)]
pub struct OutputSocket {
    /// True while the user drags a wire from this socket.
    pub connecting: bool,
    /// The socket that last confirmed it would accept the dragged wire.
    pub snapped_socket: ElementId,
    /// True while the dragged wire snaps to the socket under the cursor.
    pub snapping: bool,
}

impl OutputSocket {
    /// Where the socket stands in the protocol. An output socket is never
    /// `Connected`: the binding is recorded on the input side.
    pub open spec fn phase(self) -> SocketPhase {
        if self.connecting {
            if self.snapping {
                SocketPhase::Snapping
            } else {
                SocketPhase::Connecting
            }
        } else {
            SocketPhase::Idle
        }
    }

    /// Where the loose end of the dragged wire is drawn; `None` when no
    /// drag is in progress.
    pub open spec fn loose_end(self) -> Option<WireEnd> {
        if self.connecting {
            if self.snapping {
                Some(WireEnd::Socket(self.snapped_socket))
            } else {
                Some(WireEnd::Cursor)
            }
        } else {
            None
        }
    }

    /// Primary button pressed: take the capture and start dragging.
    pub open spec fn pressed(self, ctx: ContextView, entity: ElementId) -> (OutputSocket, ContextView) {
        (
            OutputSocket { connecting: true, snapping: false, ..self },
            ctx.capture(entity).redraw(entity).restack(entity, 1),
        )
    }

    /// Primary button released: give up the capture, end the drag, and tell
    /// whatever is under the cursor to bind to this socket.
    pub open spec fn released(self, ctx: ContextView, entity: ElementId) -> (OutputSocket, ContextView) {
        (
            OutputSocket { connecting: false, snapping: false, ..self },
            ctx.release(entity).redraw(entity).emit(
                entity,
                ctx.pointer.hovered,
                Message::Node(NodeEvent::ConnectOutput),
            ).restack(entity, 0),
        )
    }

    /// Cursor moved: ask whatever is under it whether the wire may snap
    /// there, and note whether it is the socket that last said yes.
    pub open spec fn moved(self, ctx: ContextView, entity: ElementId) -> (OutputSocket, ContextView) {
        let hovered = ctx.pointer.hovered;
        (
            OutputSocket { snapping: hovered == self.snapped_socket, ..self },
            ctx.emit(entity, hovered, Message::Node(NodeEvent::TrySnap(entity, hovered))).redraw(
                entity,
            ),
        )
    }

    /// An input bound to this socket was pulled loose: the wire, still
    /// anchored here, is now dragged from this socket.
    pub open spec fn regrabbed(self, ctx: ContextView, entity: ElementId) -> (OutputSocket, ContextView) {
        (
            OutputSocket { connecting: true, snapping: false, ..self },
            ctx.capture(entity).redraw(entity),
        )
    }

    /// The socket and the context after the socket, known as `entity`, has
    /// handled `event`.
    pub open spec fn handled(self, ctx: ContextView, entity: ElementId, event: Event) -> (
        OutputSocket,
        ContextView,
    ) {
        match event.message {
            Message::Window(WindowEvent::MouseDown(MouseButton::Left)) => self.pressed(ctx, entity),
            Message::Window(WindowEvent::MouseUp(MouseButton::Left)) => self.released(ctx, entity),
            Message::Window(WindowEvent::MouseMove) => if event.target == entity {
                self.moved(ctx, entity)
            } else {
                (self, ctx)
            },
            Message::Node(NodeEvent::ConnectInput) => if event.target == entity && event.origin
                != entity {
                (self, ctx.emit(entity, event.origin, Message::Node(NodeEvent::ConnectOutput)))
            } else {
                (self, ctx)
            },
            Message::Node(NodeEvent::Snap(_, output)) => (
                OutputSocket { snapped_socket: output, ..self },
                ctx,
            ),
            Message::Node(NodeEvent::TrySnap(input, output)) => (
                self,
                ctx.emit(entity, event.origin, Message::Node(NodeEvent::Snap(input, output))),
            ),
            Message::Node(NodeEvent::Disconnect) => if event.target == entity {
                self.regrabbed(ctx, entity)
            } else {
                (self, ctx)
            },
            _ => (self, ctx),
        }
    }

    /// An idle socket.
    pub fn new() -> (socket: OutputSocket)
        ensures
            socket == (OutputSocket {
                connecting: false,
                snapped_socket: ElementId::none(),
                snapping: false,
            }),
            socket.phase() == SocketPhase::Idle,
    {
        OutputSocket { connecting: false, snapping: false, snapped_socket: ElementId::null() }
    }

    /// Handles one event delivered to the socket known as `entity`.
    ///
    /// A request to connect whose sender is the socket itself is ignored.
    pub fn on_event(&mut self, ctx: &mut InteractionContext, entity: ElementId, event: &Event)
        ensures
            (*final(self), final(ctx)@) == old(self).handled(old(ctx)@, entity, *event),
            event.message == Message::Node(NodeEvent::ConnectInput) && event.origin == entity
                ==> *final(self) == *old(self) && final(ctx)@ == old(ctx)@,
    {
        match event.message {
            Message::Window(WindowEvent::MouseDown(MouseButton::Left)) => {
                ctx.capture(entity);
                self.connecting = true;
                self.snapping = false;
                ctx.request_redraw(entity);
                ctx.set_z_order(entity, 1);
            },
            Message::Window(WindowEvent::MouseUp(MouseButton::Left)) => {
                let hovered = ctx.hovered();
                ctx.release(entity);
                self.connecting = false;
                self.snapping = false;
                ctx.request_redraw(entity);
                ctx.emit(entity, hovered, Message::Node(NodeEvent::ConnectOutput));
                ctx.set_z_order(entity, 0);
            },
            Message::Window(WindowEvent::MouseMove) => {
                if event.target == entity {
                    let hovered = ctx.hovered();
                    ctx.emit(entity, hovered, Message::Node(NodeEvent::TrySnap(entity, hovered)));
                    ctx.request_redraw(entity);
                    self.snapping = hovered == self.snapped_socket;
                }
            },
            Message::Node(NodeEvent::ConnectInput) => {
                // A request that the socket appears to have sent to itself
                // is ignored.
                if event.target == entity && event.origin != entity {
                    ctx.emit(entity, event.origin, Message::Node(NodeEvent::ConnectOutput));
                }
            },
            Message::Node(NodeEvent::Snap(_, output)) => {
                self.snapped_socket = output;
            },
            Message::Node(NodeEvent::TrySnap(input, output)) => {
                ctx.emit(entity, event.origin, Message::Node(NodeEvent::Snap(input, output)));
            },
            Message::Node(NodeEvent::Disconnect) => {
                if event.target == entity {
                    self.connecting = true;
                    self.snapping = false;
                    ctx.capture(entity);
                    ctx.request_redraw(entity);
                }
            },
            _ => {},
        }
    }

    /// Where the loose end of the dragged wire is to be drawn on this frame;
    /// `None` when no drag is in progress.
    pub fn wire_end(&self) -> (end: Option<WireEnd>)
        ensures
            end == self.loose_end(),
    {
        if self.connecting {
            if self.snapping {
                Some(WireEnd::Socket(self.snapped_socket))
            } else {
                Some(WireEnd::Cursor)
            }
        } else {
            None
        }
    }

    /// Where the socket stands in the protocol.
    pub fn current_phase(&self) -> (phase: SocketPhase)
        ensures
            phase == self.phase(),
    {
        if self.connecting {
            if self.snapping {
                SocketPhase::Snapping
            } else {
                SocketPhase::Connecting
            }
        } else {
            SocketPhase::Idle
        }
    }
}

} // verus!
