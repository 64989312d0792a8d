//! The node select tool.

use vstd::prelude::*;
use std::collections::VecDeque;
use crate::editor::tool::fsm::Fsm;
use crate::editor::tool::{action_views, ActionView, EditorAction};
use crate::element::ElementId;

verus! {

/// What the select tool reacts to.
#[derive(Clone, Copy, Debug, PartialEq, Eq, Structural)]
pub enum SelectToolMessage {
    /// The user pressed on a node.
    PressedNode(ElementId),
    /// The user released over a node.
    ReleasedNode(ElementId),
    /// The user pressed on the canvas.
    PressedCanvas,
    /// The user moved the cursor.
    MouseMoved,
    /// Selecting several nodes at once begins.
    EnterMultiSelect,
    /// Selecting several nodes at once ends.
    LeaveMultiSelect,
}

/// The states of the select tool.
#[derive(Clone, Copy, Debug, PartialEq, Eq, Structural)]
pub enum SelectToolState {
    /// No nodes have been selected.
    SingleSelect,
    /// Several nodes may be selected at once.
    MultiSelect,
    /// At least one node has been selected.
    Selected,
    /// A selection box is being dragged.
    Dragging,
    /// The selected nodes are being moved.
    Moving,
}

/// What the select tool consults while it decides: nothing so far.
pub struct SelectToolData {}

/// The action that clears the selection, as the tool asks for it: it holds
/// no nodes until it has been applied.
pub open spec fn clear_request() -> ActionView {
    ActionView::ClearSelection { removed_nodes: Seq::empty() }
}

impl Fsm for SelectToolState {
    type Message = SelectToolMessage;

    type Data = SelectToolData;

    type Action = EditorAction;

    open spec fn step(self, message: SelectToolMessage, data: SelectToolData) -> (
        SelectToolState,
        Seq<ActionView>,
    ) {
        match (self, message) {
            (SelectToolState::SingleSelect, SelectToolMessage::PressedNode(node)) => (
                SelectToolState::Selected,
                seq![clear_request(), ActionView::AddSelection { added_node: node }],
            ),
            (SelectToolState::SingleSelect, SelectToolMessage::PressedCanvas) => (
                SelectToolState::SingleSelect,
                seq![clear_request()],
            ),
            (SelectToolState::Selected, SelectToolMessage::PressedCanvas) => (
                SelectToolState::SingleSelect,
                seq![clear_request()],
            ),
            _ => (self, Seq::empty()),
        }
    }

    fn transition(
        self,
        message: SelectToolMessage,
        data: SelectToolData,
        actions: &mut VecDeque<EditorAction>,
    ) -> (next: SelectToolState) {
        match (self, message) {
            // Selecting a node in single select mode clears the selection and
            // selects that node.
            (SelectToolState::SingleSelect, SelectToolMessage::PressedNode(node)) => {
                actions.push_back(EditorAction::ClearSelection { removed_nodes: Vec::new() });
                actions.push_back(EditorAction::AddSelection { added_node: node });
                proof {
                    assert(action_views(actions@) =~= action_views(old(actions)@) + self.step(
                        message,
                        data,
                    ).1);
                }
                SelectToolState::Selected
            },
            // Pressing the canvas in single select mode, or with a node
            // selected, clears the selection.
            (
                SelectToolState::SingleSelect | SelectToolState::Selected,
                SelectToolMessage::PressedCanvas,
            ) => {
                actions.push_back(EditorAction::ClearSelection { removed_nodes: Vec::new() });
                proof {
                    assert(action_views(actions@) =~= action_views(old(actions)@) + self.step(
                        message,
                        data,
                    ).1);
                }
                SelectToolState::SingleSelect
            },
            _ => {
                proof {
                    assert(action_views(actions@) =~= action_views(old(actions)@) + self.step(
                        message,
                        data,
                    ).1);
                }
                self
            },
        }
    }
}

} // verus!
