use std::collections::VecDeque;

use audio_nodes::editor::tool::{
    EditorAction, EditorData, Fsm, SelectToolData, SelectToolMessage, SelectToolState, Store,
};
use audio_nodes::ElementId;

fn id(index: u32) -> ElementId {
    ElementId::new(index)
}

fn kinds(actions: &VecDeque<EditorAction>) -> Vec<String> {
    actions
        .iter()
        .map(|action| match action {
            EditorAction::AddSelection { added_node } => format!("add {}", added_node.0),
            EditorAction::RemoveSelection { removed_node } => format!("remove {}", removed_node.0),
            EditorAction::ClearSelection { removed_nodes } => format!("clear {}", removed_nodes.len()),
        })
        .collect()
}

#[test]
fn pressing_a_node_selects_it_alone() {
    let mut data = EditorData::default();
    let mut actions = VecDeque::new();
    let state = SelectToolState::SingleSelect;
    let state = state.transition(SelectToolMessage::PressedNode(id(1)), SelectToolData {}, &mut actions);
    assert_eq!(state, SelectToolState::Selected);
    assert_eq!(kinds(&actions), vec!["clear 0".to_string(), "add 1".to_string()]);
    data.process_actions(&mut actions);
    assert_eq!(data.selected_nodes(), &vec![id(1)]);

    // There is no rule for a press on a node while one is selected.
    let state = state.transition(SelectToolMessage::PressedNode(id(2)), SelectToolData {}, &mut actions);
    assert_eq!(state, SelectToolState::Selected);
    assert!(actions.is_empty());
    data.process_actions(&mut actions);
    assert_eq!(data.selected_nodes(), &vec![id(1)]);
}

#[test]
fn pressing_the_canvas_in_single_select_records_a_clear() {
    let mut data = EditorData::default();
    let mut actions = VecDeque::new();
    let state = SelectToolState::SingleSelect.transition(
        SelectToolMessage::PressedCanvas,
        SelectToolData {},
        &mut actions,
    );
    assert_eq!(state, SelectToolState::SingleSelect);
    assert_eq!(kinds(&actions), vec!["clear 0".to_string()]);
    data.process_actions(&mut actions);
    assert!(data.selected_nodes().is_empty());
}

#[test]
fn pressing_the_canvas_with_a_selection_clears_it() {
    let mut data = EditorData::default();
    let mut actions = VecDeque::new();
    let state = SelectToolState::SingleSelect.transition(
        SelectToolMessage::PressedNode(id(5)),
        SelectToolData {},
        &mut actions,
    );
    data.process_actions(&mut actions);
    let state = state.transition(SelectToolMessage::PressedCanvas, SelectToolData {}, &mut actions);
    assert_eq!(state, SelectToolState::SingleSelect);
    assert_eq!(kinds(&actions), vec!["clear 0".to_string()]);
    data.process_actions(&mut actions);
    assert!(data.selected_nodes().is_empty());
}

#[test]
fn transition_appends_behind_pending_actions() {
    let mut actions = VecDeque::new();
    actions.push_back(EditorAction::RemoveSelection { removed_node: id(3) });
    SelectToolState::SingleSelect.transition(
        SelectToolMessage::PressedNode(id(4)),
        SelectToolData {},
        &mut actions,
    );
    assert_eq!(
        kinds(&actions),
        vec!["remove 3".to_string(), "clear 0".to_string(), "add 4".to_string()]
    );
}

#[test]
fn every_other_pair_is_an_identity_transition() {
    let states = [
        SelectToolState::SingleSelect,
        SelectToolState::MultiSelect,
        SelectToolState::Selected,
        SelectToolState::Dragging,
        SelectToolState::Moving,
    ];
    let messages = [
        SelectToolMessage::PressedNode(id(1)),
        SelectToolMessage::ReleasedNode(id(1)),
        SelectToolMessage::PressedCanvas,
        SelectToolMessage::MouseMoved,
        SelectToolMessage::EnterMultiSelect,
        SelectToolMessage::LeaveMultiSelect,
    ];
    for state in states {
        for message in messages {
            let has_rule = matches!(
                (state, message),
                (SelectToolState::SingleSelect, SelectToolMessage::PressedNode(_))
                    | (SelectToolState::SingleSelect, SelectToolMessage::PressedCanvas)
                    | (SelectToolState::Selected, SelectToolMessage::PressedCanvas)
            );
            if !has_rule {
                let mut actions = VecDeque::new();
                let next = state.transition(message, SelectToolData {}, &mut actions);
                assert_eq!(next, state);
                assert!(actions.is_empty());
            }
        }
    }
}
