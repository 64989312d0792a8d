//! Tools and the undoable actions through which they change the editor's
//! data.

use vstd::prelude::*;
use std::collections::VecDeque;
use crate::element::ElementId;

pub mod fsm;
pub mod history;
pub mod select;

pub use fsm::Fsm;
pub use history::ActionLog;
pub use select::{SelectToolData, SelectToolMessage, SelectToolState};

verus! {

/// The tools of the editor.
pub enum Tool {
    Select,
}

/// A change to some data that can be applied and taken back.
///
/// An action may keep, in itself, what it needs to take the change back;
/// so applying and undoing may change the action as well as the data.
pub trait Action: View + Sized {
    /// What the action changes.
    type Data: View;

    /// The action and the data after the action has been applied.
    spec fn applied(action: Self::V, data: <Self::Data as View>::V) -> (
        Self::V,
        <Self::Data as View>::V,
    );

    /// The action and the data after the action has been undone.
    spec fn undone(action: Self::V, data: <Self::Data as View>::V) -> (
        Self::V,
        <Self::Data as View>::V,
    );

    /// Applies the action to `data`.
    fn apply(&mut self, data: &mut Self::Data)
        ensures
            (final(self)@, final(data)@) == Self::applied(old(self)@, old(data)@),
    ;

    /// Takes the action back from `data`.
    fn undo(&mut self, data: &mut Self::Data)
        ensures
            (final(self)@, final(data)@) == Self::undone(old(self)@, old(data)@),
    ;
}

/// The views of the actions in `actions`, in the same order.
pub open spec fn action_views<A: View>(actions: Seq<A>) -> Seq<A::V> {
    Seq::new(actions.len(), |i: int| actions[i]@)
}

/// The data after each of `actions` has been applied once, first to last.
pub open spec fn apply_all<A: Action>(actions: Seq<A::V>, data: <A::Data as View>::V) -> <
    A::Data as View
>::V
    decreases actions.len(),
{
    if actions.len() == 0 {
        data
    } else {
        apply_all::<A>(actions.skip(1), A::applied(actions[0], data).1)
    }
}

/// Data that is changed through a queue of actions.
pub trait Store: View + Sized {
    /// The actions that change this data.
    type A: Action<Data = Self>;

    /// Drains `actions`, applying each exactly once, oldest first.
    fn process_actions(&mut self, actions: &mut VecDeque<Self::A>)
        ensures
            final(actions)@.len() == 0,
            final(self)@ == apply_all::<Self::A>(action_views(old(actions)@), old(self)@),
    {
        loop
            invariant
                apply_all::<Self::A>(action_views(actions@), self@) == apply_all::<Self::A>(
                    action_views(old(actions)@),
                    old(self)@,
                ),
            ensures
                actions@.len() == 0,
            decreases actions@.len(),
        {
            let ghost before = actions@;
            match actions.pop_front() {
                Some(mut action) => {
                    proof {
                        assert(action_views(before).skip(1) =~= action_views(actions@));
                    }
                    action.apply(self);
                },
                None => {
                    break ;
                },
            }
        }
    }
}

/// The data that the editor's tools act on.
pub struct EditorData {
    selected_nodes: Vec<ElementId>,
}

impl View for EditorData {
    type V = Seq<ElementId>;

    /// The selected nodes, in the order in which they were selected.
    closed spec fn view(&self) -> Seq<ElementId> {
        self.selected_nodes@
    }
}

impl Default for EditorData {
    fn default() -> (data: EditorData)
        ensures
            data@ == Seq::<ElementId>::empty(),
    {
        EditorData { selected_nodes: Vec::new() }
    }
}

impl EditorData {
    /// The selected nodes, in the order in which they were selected.
    pub fn selected_nodes(&self) -> (nodes: &Vec<ElementId>)
        ensures
            nodes@ == self@,
    {
        &self.selected_nodes
    }
}

impl Store for EditorData {
    type A = EditorAction;
}

/// A change to the selection.
pub enum EditorAction {
    /// Adds a node to the selected nodes.
    AddSelection { added_node: ElementId },
    /// Removes a node from the selected nodes.
    RemoveSelection { removed_node: ElementId },
    /// Clears the selection. Once applied, the action holds the nodes that
    /// were selected; what it held before is discarded.
    ClearSelection { removed_nodes: Vec<ElementId> },
}

/// The mathematical content of an [`EditorAction`].
pub enum ActionView {
    AddSelection { added_node: ElementId },
    RemoveSelection { removed_node: ElementId },
    ClearSelection { removed_nodes: Seq<ElementId> },
}

impl View for EditorAction {
    type V = ActionView;

    open spec fn view(&self) -> ActionView {
        match *self {
            EditorAction::AddSelection { added_node } => ActionView::AddSelection { added_node },
            EditorAction::RemoveSelection { removed_node } => ActionView::RemoveSelection {
                removed_node,
            },
            EditorAction::ClearSelection { removed_nodes } => ActionView::ClearSelection {
                removed_nodes: removed_nodes@,
            },
        }
    }
}

/// The index of the first occurrence of `node` in `nodes`, if there is one.
fn first_index_of(nodes: &Vec<ElementId>, node: ElementId) -> (found: Option<usize>)
    ensures
        found is None ==> nodes@.index_of_first(node) is None,
        found matches Some(i) ==> i < nodes@.len() && nodes@.index_of_first(node) == Some(i as int),
{
    let mut i: usize = 0;
    while i < nodes.len()
        invariant
            i <= nodes.len(),
            forall|j: int| 0 <= j < i ==> nodes@[j] != node,
        decreases nodes.len() - i,
    {
        if nodes[i] == node {
            proof {
                nodes@.index_of_first_ensures(node);
                assert(nodes@[i as int] == node);
            }
            return Some(i);
        }
        i += 1;
    }
    proof {
        nodes@.index_of_first_ensures(node);
    }
    None
}

impl Action for EditorAction {
    type Data = EditorData;

    open spec fn applied(action: ActionView, data: Seq<ElementId>) -> (ActionView, Seq<ElementId>) {
        match action {
            ActionView::AddSelection { added_node } => (action, data.push(added_node)),
            ActionView::RemoveSelection { removed_node } => (action, data.remove_value(removed_node)),
            ActionView::ClearSelection { .. } => (
                ActionView::ClearSelection { removed_nodes: data },
                Seq::empty(),
            ),
        }
    }

    open spec fn undone(action: ActionView, data: Seq<ElementId>) -> (ActionView, Seq<ElementId>) {
        match action {
            ActionView::AddSelection { added_node } => (action, data.remove_value(added_node)),
            ActionView::RemoveSelection { removed_node } => (action, data.push(removed_node)),
            ActionView::ClearSelection { removed_nodes } => (action, removed_nodes),
        }
    }

    fn apply(&mut self, data: &mut EditorData) {
        match self {
            EditorAction::AddSelection { added_node } => {
                data.selected_nodes.push(*added_node);
            },
            EditorAction::RemoveSelection { removed_node } => {
                if let Some(index) = first_index_of(&data.selected_nodes, *removed_node) {
                    data.selected_nodes.remove(index);
                }
            },
            EditorAction::ClearSelection { removed_nodes } => {
                *removed_nodes = data.selected_nodes.clone();
                data.selected_nodes.clear();
            },
        }
    }

    fn undo(&mut self, data: &mut EditorData) {
        match self {
            EditorAction::AddSelection { added_node } => {
                if let Some(index) = first_index_of(&data.selected_nodes, *added_node) {
                    data.selected_nodes.remove(index);
                }
            },
            EditorAction::RemoveSelection { removed_node } => {
                data.selected_nodes.push(*removed_node);
            },
            EditorAction::ClearSelection { removed_nodes } => {
                data.selected_nodes = removed_nodes.clone();
            },
        }
    }
}

} // verus!
