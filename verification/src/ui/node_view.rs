//! The canvas on which nodes are laid out. It can be panned with the middle
//! button.

use vstd::prelude::*;
use crate::element::ElementId;
use crate::events::{Event, Message, MouseButton, WindowEvent};
use crate::interaction::{ContextView, InteractionContext};

verus! {

/// The view that holds the nodes.
///
/// Only the decisions are made here: when a pan begins and ends, and when
/// the canvas has to be drawn again. How far the canvas has moved, and its
/// scale, are geometry and stay with the layout engine.
#[derive(Clone, Copy, Debug, PartialEq, Eq, Structural)]
pub struct NodeView {
    /// True while the canvas follows the cursor.
    pub panning: bool,
    /// The element on which the nodes are placed.
    pub canvas: ElementId,
}

impl NodeView {
    /// The view and the context after the view, known as `entity`, has
    /// handled `event`.
    pub open spec fn handled(self, ctx: ContextView, entity: ElementId, event: Event) -> (
        NodeView,
        ContextView,
    ) {
        match event.message {
            Message::Window(WindowEvent::MouseDown(MouseButton::Middle)) => (
                NodeView { panning: true, ..self },
                ctx.capture(entity),
            ),
            Message::Window(WindowEvent::MouseUp(MouseButton::Middle)) => if event.target == entity {
                (NodeView { panning: false, ..self }, ctx.release(entity))
            } else {
                (self, ctx)
            },
            Message::Window(WindowEvent::MouseMove) => if self.panning {
                (self, ctx.redraw(entity))
            } else {
                (self, ctx)
            },
            _ => (self, ctx),
        }
    }

    /// A view that is not being panned and has no canvas yet.
    pub fn new() -> (view: NodeView)
        ensures
            view == (NodeView { panning: false, canvas: ElementId::none() }),
    {
        NodeView { panning: false, canvas: ElementId::null() }
    }

    /// Handles one event delivered to the view known as `entity`.
    pub fn on_event(&mut self, ctx: &mut InteractionContext, entity: ElementId, event: &Event)
        ensures
            (*final(self), final(ctx)@) == old(self).handled(old(ctx)@, entity, *event),
    {
        match event.message {
            Message::Window(WindowEvent::MouseDown(MouseButton::Middle)) => {
                self.panning = true;
                ctx.capture(entity);
            },
            Message::Window(WindowEvent::MouseUp(MouseButton::Middle)) => {
                if event.target == entity {
                    self.panning = false;
                    ctx.release(entity);
                }
            },
            Message::Window(WindowEvent::MouseMove) => {
                // While the middle button is held, the canvas follows the
                // cursor.
                if self.panning {
                    ctx.request_redraw(entity);
                }
            },
            _ => {},
        }
    }
}

} // verus!
