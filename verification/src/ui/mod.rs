//! The interactive elements of the node view and the messages they exchange.

use vstd::prelude::*;
use crate::element::ElementId;

pub mod node_view;
pub mod node_widget;
pub mod socket_widget;

pub use node_view::NodeView;
pub use node_widget::NodeWidget;
pub use socket_widget::{ConnectionWidget, InputSocket, OutputSocket, SocketPhase, WireEnd};

verus! {

/// What sockets and wires say to one another while a connection is made or
/// broken.
#[derive(Clone, Copy, Debug, PartialEq, Eq, Structural)]
pub enum NodeEvent {
    /// Asks the receiver whether a wire dragged from the first socket may
    /// snap to the second.
    TrySnap(ElementId, ElementId),
    /// Tells a wire which output socket it is now bound to.
    ConnectSockets(ElementId),
    /// An input socket asks the receiver to connect to it.
    ConnectInput,
    /// An output socket tells the receiver to bind to it.
    ConnectOutput,
    /// Confirms that the wire dragged from the first socket may snap to the
    /// second.
    Snap(ElementId, ElementId),
    /// A drag is in progress.
    Connecting,
    /// Breaks the connection the receiver takes part in.
    Disconnect,
}

} // verus!
