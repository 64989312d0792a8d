//! Interaction core of a visual node-graph editor.
//!
//! The crate models, and proves properties of, the way pointer events are
//! routed to interactive elements, how one element at a time captures the
//! pointer, and how sockets negotiate wire connections by exchanging
//! messages.  It also holds the selection tool: a small state machine whose
//! actions on the set of selected nodes can be undone.

pub mod bus;
pub mod editor;
pub mod element;
pub mod events;
pub mod interaction;
pub mod pointer;
pub mod protocol;
pub mod session;
pub mod ui;

pub use bus::MessageBus;
pub use element::ElementId;
pub use events::{Event, Message, MouseButton, WindowEvent};
pub use interaction::{ContextView, InteractionContext, ZOrderChange};
pub use pointer::PointerState;
pub use session::{Element, Session, SessionView};
pub use ui::NodeEvent;
