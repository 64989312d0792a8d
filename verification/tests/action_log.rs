use std::collections::VecDeque;

use audio_nodes::editor::tool::{ActionLog, EditorAction, EditorData};
use audio_nodes::ElementId;

fn id(index: u32) -> ElementId {
    ElementId::new(index)
}

fn ids(nodes: &[u32]) -> Vec<ElementId> {
    nodes.iter().map(|node| id(*node)).collect()
}

#[test]
fn new_log_has_nothing_to_undo_or_redo() {
    let mut log: ActionLog<EditorAction> = ActionLog::new();
    let mut data = EditorData::default();
    assert_eq!(log.undo_depth(), 0);
    assert_eq!(log.redo_depth(), 0);
    assert!(!log.undo(&mut data));
    assert!(!log.redo(&mut data));
    assert!(data.selected_nodes().is_empty());
}

#[test]
fn record_applies_at_once_and_keeps_the_action() {
    let mut log = ActionLog::new();
    let mut data = EditorData::default();
    log.record(EditorAction::AddSelection { added_node: id(4) }, &mut data);
    assert_eq!(data.selected_nodes(), &ids(&[4]));
    assert_eq!(log.undo_depth(), 1);
    assert_eq!(log.redo_depth(), 0);
}

#[test]
fn undo_takes_back_the_latest_action_first() {
    let mut log = ActionLog::new();
    let mut data = EditorData::default();
    log.record(EditorAction::AddSelection { added_node: id(1) }, &mut data);
    log.record(EditorAction::AddSelection { added_node: id(2) }, &mut data);
    log.record(EditorAction::ClearSelection { removed_nodes: Vec::new() }, &mut data);
    assert!(data.selected_nodes().is_empty());
    assert!(log.undo(&mut data));
    assert_eq!(data.selected_nodes(), &ids(&[1, 2]));
    assert!(log.undo(&mut data));
    assert_eq!(data.selected_nodes(), &ids(&[1]));
    assert!(log.undo(&mut data));
    assert!(data.selected_nodes().is_empty());
    assert!(!log.undo(&mut data));
    assert_eq!(log.undo_depth(), 0);
    assert_eq!(log.redo_depth(), 3);
}

#[test]
fn redo_applies_again_what_was_undone_last() {
    let mut log = ActionLog::new();
    let mut data = EditorData::default();
    log.record(EditorAction::AddSelection { added_node: id(1) }, &mut data);
    log.record(EditorAction::AddSelection { added_node: id(2) }, &mut data);
    assert!(log.undo(&mut data));
    assert!(log.undo(&mut data));
    assert!(log.redo(&mut data));
    assert_eq!(data.selected_nodes(), &ids(&[1]));
    assert!(log.redo(&mut data));
    assert_eq!(data.selected_nodes(), &ids(&[1, 2]));
    assert!(!log.redo(&mut data));
}

#[test]
fn recording_after_undo_truncates_the_log() {
    let mut log = ActionLog::new();
    let mut data = EditorData::default();
    log.record(EditorAction::AddSelection { added_node: id(1) }, &mut data);
    log.record(EditorAction::AddSelection { added_node: id(2) }, &mut data);
    assert!(log.undo(&mut data));
    log.record(EditorAction::AddSelection { added_node: id(3) }, &mut data);
    assert_eq!(data.selected_nodes(), &ids(&[1, 3]));
    assert_eq!(log.undo_depth(), 2);
    assert_eq!(log.redo_depth(), 0);
    assert!(!log.redo(&mut data));
}

#[test]
fn process_then_undo_as_many_restores_the_selection() {
    let mut log = ActionLog::new();
    let mut data = EditorData::default();
    log.record(EditorAction::AddSelection { added_node: id(7) }, &mut data);
    let mut actions = VecDeque::new();
    actions.push_back(EditorAction::ClearSelection { removed_nodes: Vec::new() });
    actions.push_back(EditorAction::AddSelection { added_node: id(8) });
    actions.push_back(EditorAction::AddSelection { added_node: id(9) });
    actions.push_back(EditorAction::RemoveSelection { removed_node: id(9) });
    log.process_actions(&mut data, &mut actions);
    assert!(actions.is_empty());
    assert_eq!(data.selected_nodes(), &ids(&[8]));
    assert_eq!(log.undo_depth(), 5);
    for _ in 0..4 {
        assert!(log.undo(&mut data));
    }
    assert_eq!(data.selected_nodes(), &ids(&[7]));
}

#[test]
fn processing_an_empty_queue_keeps_what_can_be_redone() {
    let mut log = ActionLog::new();
    let mut data = EditorData::default();
    log.record(EditorAction::AddSelection { added_node: id(1) }, &mut data);
    assert!(log.undo(&mut data));
    let mut actions: VecDeque<EditorAction> = VecDeque::new();
    log.process_actions(&mut data, &mut actions);
    assert_eq!(log.redo_depth(), 1);
    assert!(log.redo(&mut data));
    assert_eq!(data.selected_nodes(), &ids(&[1]));
}
