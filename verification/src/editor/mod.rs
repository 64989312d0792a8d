//! Front-end state of the editor: the tools and what they act on.

use vstd::prelude::*;
use crate::element::ElementId;

pub mod tool;

pub use tool::{
    Action, ActionLog, ActionView, EditorAction, EditorData, Fsm, SelectToolData, SelectToolMessage,
    SelectToolState, Store, Tool,
};

verus! {

/// Front-end state of the editor, such as the tool in use and the selected
/// nodes.
pub struct NodeEditorState {
    pub selected_tool: Tool,
    pub selected_nodes: Vec<ElementId>,
}

} // verus!
