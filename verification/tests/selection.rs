use std::collections::VecDeque;

use audio_nodes::editor::tool::{Action, EditorAction, EditorData, Store};
use audio_nodes::ElementId;

fn id(index: u32) -> ElementId {
    ElementId::new(index)
}

fn selection(nodes: &[u32]) -> EditorData {
    let mut data = EditorData::default();
    for node in nodes {
        EditorAction::AddSelection { added_node: id(*node) }.apply(&mut data);
    }
    data
}

fn ids(nodes: &[u32]) -> Vec<ElementId> {
    nodes.iter().map(|node| id(*node)).collect()
}

#[test]
fn default_selection_is_empty() {
    let data = EditorData::default();
    assert!(data.selected_nodes().is_empty());
}

#[test]
fn add_selection_appends() {
    let mut data = EditorData::default();
    let mut action = EditorAction::AddSelection { added_node: id(7) };
    action.apply(&mut data);
    assert_eq!(data.selected_nodes(), &ids(&[7]));
    EditorAction::AddSelection { added_node: id(3) }.apply(&mut data);
    assert_eq!(data.selected_nodes(), &ids(&[7, 3]));
}

#[test]
fn add_selection_keeps_duplicates() {
    let mut data = selection(&[1, 2]);
    EditorAction::AddSelection { added_node: id(1) }.apply(&mut data);
    assert_eq!(data.selected_nodes(), &ids(&[1, 2, 1]));
}

#[test]
fn remove_selection_removes_first_occurrence_only() {
    let mut data = selection(&[4, 5, 4, 6]);
    EditorAction::RemoveSelection { removed_node: id(4) }.apply(&mut data);
    assert_eq!(data.selected_nodes(), &ids(&[5, 4, 6]));
}

#[test]
fn remove_selection_of_absent_node_changes_nothing() {
    let mut data = selection(&[4, 5]);
    EditorAction::RemoveSelection { removed_node: id(9) }.apply(&mut data);
    assert_eq!(data.selected_nodes(), &ids(&[4, 5]));
}

#[test]
fn clear_selection_takes_a_snapshot_and_discards_its_old_payload() {
    let mut data = selection(&[1, 2, 3]);
    let mut action = EditorAction::ClearSelection { removed_nodes: ids(&[42]) };
    action.apply(&mut data);
    assert!(data.selected_nodes().is_empty());
    match action {
        EditorAction::ClearSelection { removed_nodes } => assert_eq!(removed_nodes, ids(&[1, 2, 3])),
        _ => panic!("the action changed its kind"),
    }
}

#[test]
fn undo_of_add_restores_selection_without_the_node() {
    let mut data = selection(&[1, 2]);
    let mut action = EditorAction::AddSelection { added_node: id(3) };
    action.apply(&mut data);
    action.undo(&mut data);
    assert_eq!(data.selected_nodes(), &ids(&[1, 2]));
}

#[test]
fn undo_of_add_restores_selection_that_ends_in_the_node() {
    let mut data = selection(&[2, 1, 1]);
    let mut action = EditorAction::AddSelection { added_node: id(1) };
    action.apply(&mut data);
    assert_eq!(data.selected_nodes(), &ids(&[2, 1, 1, 1]));
    action.undo(&mut data);
    assert_eq!(data.selected_nodes(), &ids(&[2, 1, 1]));
}

#[test]
fn undo_of_double_add_removes_the_earlier_entry() {
    let mut data = selection(&[1, 2]);
    let mut action = EditorAction::AddSelection { added_node: id(1) };
    action.apply(&mut data);
    action.undo(&mut data);
    assert_eq!(data.selected_nodes(), &ids(&[2, 1]));
}

#[test]
fn undo_of_remove_restores_last_node() {
    let mut data = selection(&[1, 2, 3]);
    let mut action = EditorAction::RemoveSelection { removed_node: id(3) };
    action.apply(&mut data);
    assert_eq!(data.selected_nodes(), &ids(&[1, 2]));
    action.undo(&mut data);
    assert_eq!(data.selected_nodes(), &ids(&[1, 2, 3]));
}

#[test]
fn undo_of_remove_appends_the_node_at_the_end() {
    let mut data = selection(&[1, 2, 3]);
    let mut action = EditorAction::RemoveSelection { removed_node: id(1) };
    action.apply(&mut data);
    action.undo(&mut data);
    assert_eq!(data.selected_nodes(), &ids(&[2, 3, 1]));
}

#[test]
fn undo_of_remove_of_absent_node_adds_it() {
    let mut data = selection(&[1]);
    let mut action = EditorAction::RemoveSelection { removed_node: id(2) };
    action.apply(&mut data);
    action.undo(&mut data);
    assert_eq!(data.selected_nodes(), &ids(&[1, 2]));
}

#[test]
fn undo_of_clear_restores_selection_exactly() {
    let mut data = selection(&[3, 1, 3, 2]);
    let mut action = EditorAction::ClearSelection { removed_nodes: Vec::new() };
    action.apply(&mut data);
    assert!(data.selected_nodes().is_empty());
    action.undo(&mut data);
    assert_eq!(data.selected_nodes(), &ids(&[3, 1, 3, 2]));
}

#[test]
fn undo_of_unapplied_clear_installs_its_payload() {
    let mut data = selection(&[1]);
    let mut action = EditorAction::ClearSelection { removed_nodes: ids(&[8, 9]) };
    action.undo(&mut data);
    assert_eq!(data.selected_nodes(), &ids(&[8, 9]));
}

#[test]
fn undoing_in_reverse_order_restores_the_start() {
    let mut data = selection(&[1, 2]);
    let mut actions = vec![
        EditorAction::AddSelection { added_node: id(3) },
        EditorAction::RemoveSelection { removed_node: id(3) },
        EditorAction::ClearSelection { removed_nodes: Vec::new() },
        EditorAction::AddSelection { added_node: id(5) },
    ];
    for action in actions.iter_mut() {
        action.apply(&mut data);
    }
    assert_eq!(data.selected_nodes(), &ids(&[5]));
    for action in actions.iter_mut().rev() {
        action.undo(&mut data);
    }
    assert_eq!(data.selected_nodes(), &ids(&[1, 2]));
}

#[test]
fn process_actions_drains_in_order() {
    let mut data = EditorData::default();
    let mut actions = VecDeque::new();
    actions.push_back(EditorAction::AddSelection { added_node: id(1) });
    actions.push_back(EditorAction::AddSelection { added_node: id(2) });
    actions.push_back(EditorAction::RemoveSelection { removed_node: id(1) });
    data.process_actions(&mut actions);
    assert!(actions.is_empty());
    assert_eq!(data.selected_nodes(), &ids(&[2]));
}

#[test]
fn process_actions_on_empty_queue_changes_nothing() {
    let mut data = selection(&[6]);
    let mut actions: VecDeque<EditorAction> = VecDeque::new();
    data.process_actions(&mut actions);
    assert_eq!(data.selected_nodes(), &ids(&[6]));
}

#[test]
fn process_actions_applies_clear_before_add() {
    let mut data = selection(&[1, 2]);
    let mut actions = VecDeque::new();
    actions.push_back(EditorAction::ClearSelection { removed_nodes: Vec::new() });
    actions.push_back(EditorAction::AddSelection { added_node: id(9) });
    data.process_actions(&mut actions);
    assert_eq!(data.selected_nodes(), &ids(&[9]));
}
