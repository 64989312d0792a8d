//! A node: a box that can be dragged about the canvas.

use vstd::prelude::*;
use crate::element::ElementId;
use crate::events::{Event, Message, MouseButton, WindowEvent};
use crate::interaction::{ContextView, InteractionContext};

verus! {

/// A node of the graph.
///
/// Only the decisions are made here: when a move begins and ends, and when
/// the node has to be drawn again. Where the node is drawn is geometry and
/// stays with the layout engine.
#[derive(Clone, Copy, Debug, PartialEq, Eq, Structural)]
pub struct NodeWidget {
    /// True while the node is part of the selection.
    pub selected: bool,
    /// True while the node follows the cursor.
    pub moving: bool,
}

impl NodeWidget {
    /// The node and the context after the node, known as `entity`, has
    /// handled `event`. A node reacts only to what is addressed to itself.
    pub open spec fn handled(self, ctx: ContextView, entity: ElementId, event: Event) -> (
        NodeWidget,
        ContextView,
    ) {
        if event.target != entity {
            (self, ctx)
        } else {
            match event.message {
                Message::Window(WindowEvent::MouseDown(MouseButton::Left)) => (
                    NodeWidget { moving: true, ..self },
                    ctx.capture(entity),
                ),
                Message::Window(WindowEvent::MouseUp(MouseButton::Left)) => (
                    NodeWidget { moving: false, ..self },
                    ctx.release(entity),
                ),
                Message::Window(WindowEvent::MouseMove) => if self.moving {
                    (self, ctx.redraw(entity))
                } else {
                    (self, ctx)
                },
                _ => (self, ctx),
            }
        }
    }

    /// A node that is neither selected nor being moved.
    pub fn new() -> (node: NodeWidget)
        ensures
            node == (NodeWidget { selected: false, moving: false }),
    {
        NodeWidget { selected: false, moving: false }
    }

    /// Handles one event delivered to the node known as `entity`.
    pub fn on_event(&mut self, ctx: &mut InteractionContext, entity: ElementId, event: &Event)
        ensures
            (*final(self), final(ctx)@) == old(self).handled(old(ctx)@, entity, *event),
    {
        match event.message {
            Message::Window(WindowEvent::MouseDown(MouseButton::Left)) => {
                if event.target == entity {
                    self.moving = true;
                    ctx.capture(entity);
                }
            },
            Message::Window(WindowEvent::MouseUp(MouseButton::Left)) => {
                if event.target == entity {
                    self.moving = false;
                    ctx.release(entity);
                }
            },
            Message::Window(WindowEvent::MouseMove) => {
                if event.target == entity {
                    if self.moving {
                        ctx.request_redraw(entity);
                    }
                }
            },
            _ => {},
        }
    }
}

} // verus!
