//! The action log: what has been applied, kept so that it can be undone.
//!
//! Undo is exact only where the action's inverse finds the data as the
//! action left it. This module says precisely when that is, proves that a
//! run of such actions is undone by undoing each in reverse order, and keeps
//! the linear history that makes undoing possible.

use vstd::prelude::*;
use std::collections::VecDeque;
use crate::editor::tool::{action_views, apply_all, Action, ActionView, EditorAction};
use crate::element::ElementId;

verus! {

/// The data after `action` has been applied to `data` and then undone.
pub open spec fn round_trip<A: Action>(action: A::V, data: <A::Data as View>::V) -> <
    A::Data as View
>::V {
    let (applied, changed) = A::applied(action, data);
    A::undone(applied, changed).1
}

/// The actions as they are after each has been applied once, first to last,
/// starting from `data`.
pub open spec fn applied_actions<A: Action>(actions: Seq<A::V>, data: <A::Data as View>::V) -> Seq<
    A::V,
>
    decreases actions.len(),
{
    if actions.len() == 0 {
        Seq::empty()
    } else {
        let (applied, changed) = A::applied(actions[0], data);
        seq![applied] + applied_actions::<A>(actions.skip(1), changed)
    }
}

/// The data after each of `actions` has been undone once, last to first.
pub open spec fn undo_all<A: Action>(actions: Seq<A::V>, data: <A::Data as View>::V) -> <
    A::Data as View
>::V
    decreases actions.len(),
{
    if actions.len() == 0 {
        data
    } else {
        undo_all::<A>(actions.drop_last(), A::undone(actions.last(), data).1)
    }
}

/// Whether, as `actions` are applied first to last starting from `data`,
/// each one meets data from which its undo leads back.
pub open spec fn each_restores<A: Action>(actions: Seq<A::V>, data: <A::Data as View>::V) -> bool
    decreases actions.len(),
{
    actions.len() == 0 || (round_trip::<A>(actions[0], data) == data && each_restores::<A>(
        actions.skip(1),
        A::applied(actions[0], data).1,
    ))
}

/// Whether nothing but `node` follows an occurrence of `node` in `nodes`.
/// This holds in particular where `node` does not occur at all.
pub open spec fn ends_in_run_of(nodes: Seq<ElementId>, node: ElementId) -> bool {
    forall|i: int, j: int| 0 <= i <= j < nodes.len() && nodes[i] == node ==> nodes[j] == node
}

/// The selections from which undoing `action`, right after applying it,
/// leads back exactly.
///
/// Undoing an addition removes the first occurrence of the node, which is
/// the added one only if no other node follows an earlier occurrence.
/// Undoing a removal appends the node, which puts it back in place only if
/// it was there and nothing else followed it. Clearing can always be undone.
pub open spec fn restores(action: ActionView, nodes: Seq<ElementId>) -> bool {
    match action {
        ActionView::AddSelection { added_node } => ends_in_run_of(nodes, added_node),
        ActionView::RemoveSelection { removed_node } => nodes.contains(removed_node)
            && ends_in_run_of(nodes, removed_node),
        ActionView::ClearSelection { .. } => true,
    }
}

proof fn lemma_run_from(nodes: Seq<ElementId>, first: int, node: ElementId, at: int)
    requires
        0 <= first <= at < nodes.len(),
        nodes.remove(first).push(node) == nodes,
    ensures
        nodes[at] == node,
    decreases nodes.len() - at,
{
    let moved = nodes.remove(first).push(node);
    if at == nodes.len() - 1 {
        assert(moved[at] == node);
    } else {
        lemma_run_from(nodes, first, node, at + 1);
        assert(moved[at] == nodes[at + 1]);
    }
}

/// Moving the first occurrence of `node` to the end leaves `nodes` as it is
/// exactly when nothing but `node` follows that occurrence.
proof fn lemma_move_to_end(nodes: Seq<ElementId>, first: int, node: ElementId)
    requires
        0 <= first < nodes.len(),
        nodes[first] == node,
        forall|j: int| 0 <= j < first ==> nodes[j] != node,
    ensures
        nodes.remove(first).push(node) == nodes <==> ends_in_run_of(nodes, node),
{
    let moved = nodes.remove(first).push(node);
    if ends_in_run_of(nodes, node) {
        assert forall|k: int| 0 <= k < nodes.len() implies moved[k] == nodes[k] by {
            if first <= k {
                assert(nodes[k] == node);
                if k + 1 < nodes.len() {
                    assert(nodes[k + 1] == node);
                }
            }
        }
        assert(moved =~= nodes);
    }
    if moved == nodes {
        assert forall|i: int, j: int| 0 <= i <= j < nodes.len() && nodes[i] == node implies nodes[j]
            == node by {
            lemma_run_from(nodes, first, node, j);
        }
    }
}

/// Undoing a change to the selection right after applying it gives back the
/// selection exactly as it was if, and only if, the selection is one of
/// those that [`restores`] describes.
pub proof fn lemma_undo_inverts_apply(action: ActionView, nodes: Seq<ElementId>)
    ensures
        round_trip::<EditorAction>(action, nodes) == nodes <==> restores(action, nodes),
{
    match action {
        ActionView::AddSelection { added_node } => {
            let grown = nodes.push(added_node);
            grown.index_of_first_ensures(added_node);
            assert(grown[nodes.len() as int] == added_node);
            let first = grown.index_of_first(added_node).unwrap();
            if first == nodes.len() {
                assert(grown.remove(first) =~= nodes);
                assert forall|j: int| 0 <= j < nodes.len() implies nodes[j] != added_node by {
                    assert(grown[j] == nodes[j]);
                }
            } else {
                assert(grown.remove(first) =~= nodes.remove(first).push(added_node));
                assert(nodes[first] == grown[first]);
                assert forall|j: int| 0 <= j < first implies nodes[j] != added_node by {
                    assert(grown[j] == nodes[j]);
                }
                lemma_move_to_end(nodes, first, added_node);
            }
        },
        ActionView::RemoveSelection { removed_node } => {
            nodes.index_of_first_ensures(removed_node);
            if nodes.contains(removed_node) {
                let first = nodes.index_of_first(removed_node).unwrap();
                lemma_move_to_end(nodes, first, removed_node);
            } else {
                assert(nodes.push(removed_node).len() != nodes.len());
            }
        },
        ActionView::ClearSelection { .. } => {},
    }
}

/// Undoing a run of actions that ends with `later` undoes `later` first.
proof fn lemma_undo_all_concat<A: Action>(
    earlier: Seq<A::V>,
    later: Seq<A::V>,
    data: <A::Data as View>::V,
)
    ensures
        undo_all::<A>(earlier + later, data) == undo_all::<A>(earlier, undo_all::<A>(later, data)),
    decreases later.len(),
{
    if later.len() == 0 {
        assert(earlier + later =~= earlier);
    } else {
        let all = earlier + later;
        assert(all.drop_last() =~= earlier + later.drop_last());
        assert(all.last() == later.last());
        lemma_undo_all_concat::<A>(earlier, later.drop_last(), A::undone(later.last(), data).1);
    }
}

/// Applying any number of actions and then undoing as many, latest first,
/// gives back the data exactly as it was, provided each action met data from
/// which its undo leads back.
pub proof fn lemma_undo_all_inverts_apply_all<A: Action>(
    actions: Seq<A::V>,
    data: <A::Data as View>::V,
)
    requires
        each_restores::<A>(actions, data),
    ensures
        undo_all::<A>(applied_actions::<A>(actions, data), apply_all::<A>(actions, data)) == data,
    decreases actions.len(),
{
    if actions.len() > 0 {
        let (applied, changed) = A::applied(actions[0], data);
        let rest = applied_actions::<A>(actions.skip(1), changed);
        let end = apply_all::<A>(actions.skip(1), changed);
        lemma_undo_all_inverts_apply_all::<A>(actions.skip(1), changed);
        lemma_undo_all_concat::<A>(seq![applied], rest, end);
        assert(seq![applied].drop_last() =~= Seq::<A::V>::empty());
        assert(seq![applied].last() == applied);
        assert(undo_all::<A>(seq![applied], changed) == A::undone(applied, changed).1) by {
            reveal_with_fuel(undo_all, 2);
        }
    }
}

/// Whether, as `actions` are applied to the selection first to last
/// starting from `nodes`, each one meets a selection that [`restores`]
/// describes.
pub open spec fn all_restore(actions: Seq<ActionView>, nodes: Seq<ElementId>) -> bool
    decreases actions.len(),
{
    actions.len() == 0 || (restores(actions[0], nodes) && all_restore(
        actions.skip(1),
        EditorAction::applied(actions[0], nodes).1,
    ))
}

/// Applying any number of changes to the selection and then undoing as
/// many, latest first, gives back the selection exactly as it was, provided
/// each change met a selection that [`restores`] describes.
pub proof fn lemma_selection_restored(actions: Seq<ActionView>, nodes: Seq<ElementId>)
    requires
        all_restore(actions, nodes),
    ensures
        undo_all::<EditorAction>(
            applied_actions::<EditorAction>(actions, nodes),
            apply_all::<EditorAction>(actions, nodes),
        ) == nodes,
{
    lemma_all_restore_each(actions, nodes);
    lemma_undo_all_inverts_apply_all::<EditorAction>(actions, nodes);
}

proof fn lemma_all_restore_each(actions: Seq<ActionView>, nodes: Seq<ElementId>)
    requires
        all_restore(actions, nodes),
    ensures
        each_restores::<EditorAction>(actions, nodes),
    decreases actions.len(),
{
    if actions.len() > 0 {
        lemma_undo_inverts_apply(actions[0], nodes);
        lemma_all_restore_each(actions.skip(1), EditorAction::applied(actions[0], nodes).1);
    }
}

/// A linear history of actions.
///
/// Actions enter the log as they are applied. Undoing takes back the latest
/// applied action and keeps it, so that it can be applied again; recording a
/// new action forgets whatever had been undone.
pub struct ActionLog<A: Action> {
    done: Vec<A>,
    undone: Vec<A>,
}

impl<A: Action> ActionLog<A> {
    /// The applied actions that have not been undone, oldest first.
    pub closed spec fn applied(&self) -> Seq<A::V> {
        action_views(self.done@)
    }

    /// The undone actions that can be applied again, in the order in which
    /// they were undone.
    pub closed spec fn reverted(&self) -> Seq<A::V> {
        action_views(self.undone@)
    }

    /// An empty log.
    pub fn new() -> (log: ActionLog<A>)
        ensures
            log.applied() == Seq::<A::V>::empty(),
            log.reverted() == Seq::<A::V>::empty(),
    {
        let log = ActionLog { done: Vec::new(), undone: Vec::new() };
        assert(log.applied() =~= Seq::<A::V>::empty());
        assert(log.reverted() =~= Seq::<A::V>::empty());
        log
    }

    /// The number of actions that can be undone.
    pub fn undo_depth(&self) -> (n: usize)
        ensures
            n == self.applied().len(),
    {
        self.done.len()
    }

    /// The number of actions that can be applied again.
    pub fn redo_depth(&self) -> (n: usize)
        ensures
            n == self.reverted().len(),
    {
        self.undone.len()
    }

    /// Applies `action` to `data` at once and keeps it for undo. Actions that
    /// had been undone can no longer be applied again.
    pub fn record(&mut self, action: A, data: &mut A::Data)
        ensures
            final(self).applied() == old(self).applied().push(A::applied(action@, old(data)@).0),
            final(self).reverted() == Seq::<A::V>::empty(),
            final(data)@ == A::applied(action@, old(data)@).1,
    {
        let mut action = action;
        action.apply(data);
        self.undone = Vec::new();
        self.done.push(action);
        assert(self.applied() =~= old(self).applied().push(action@));
        assert(self.reverted() =~= Seq::<A::V>::empty());
    }

    /// Drains `actions`, oldest first, applying each to `data` exactly once
    /// and keeping it for undo.
    pub fn process_actions(&mut self, data: &mut A::Data, actions: &mut VecDeque<A>)
        ensures
            final(actions)@.len() == 0,
            final(data)@ == apply_all::<A>(action_views(old(actions)@), old(data)@),
            final(self).applied() == old(self).applied() + applied_actions::<A>(
                action_views(old(actions)@),
                old(data)@,
            ),
            final(self).reverted() == if old(actions)@.len() == 0 {
                old(self).reverted()
            } else {
                Seq::<A::V>::empty()
            },
    {
        let ghost pending = action_views(actions@);
        let ghost start = data@;
        let ghost mut taken: Seq<A::V> = Seq::empty();
        assert(old(self).applied() + taken =~= old(self).applied());
        assert(pending.skip(0) =~= pending);
        loop
            invariant
                taken.len() + actions@.len() == pending.len(),
                action_views(actions@) == pending.skip(taken.len() as int),
                self.applied() == old(self).applied() + taken,
                self.reverted() == if taken.len() == 0 {
                    old(self).reverted()
                } else {
                    Seq::<A::V>::empty()
                },
                apply_all::<A>(pending, start) == apply_all::<A>(action_views(actions@), data@),
                applied_actions::<A>(pending, start) == taken + applied_actions::<A>(
                    action_views(actions@),
                    data@,
                ),
            ensures
                actions@.len() == 0,
                taken.len() == pending.len(),
            decreases actions@.len(),
        {
            let ghost before = actions@;
            match actions.pop_front() {
                Some(action) => {
                    proof {
                        assert(action_views(before).skip(1) =~= action_views(actions@));
                        assert(action_views(before)[0] == action@);
                        let (applied, changed) = A::applied(action@, data@);
                        assert((taken + seq![applied]) + applied_actions::<A>(
                            action_views(actions@),
                            changed,
                        ) =~= taken + (seq![applied] + applied_actions::<A>(
                            action_views(actions@),
                            changed,
                        )));
                        assert((old(self).applied() + taken).push(applied) =~= old(self).applied()
                            + (taken + seq![applied]));
                        assert(pending.skip(taken.len() as int).skip(1) =~= pending.skip(
                            taken.len() as int + 1,
                        ));
                        taken = taken + seq![applied];
                    }
                    self.record(action, data);
                },
                None => {
                    break ;
                },
            }
        }
        proof {
            assert(applied_actions::<A>(action_views(actions@), data@) =~= Seq::<A::V>::empty());
            assert(taken + Seq::<A::V>::empty() =~= taken);
        }
    }

    /// Takes back the latest applied action, if there is one, and keeps it
    /// so that it can be applied again. Returns whether anything was undone.
    pub fn undo(&mut self, data: &mut A::Data) -> (did: bool)
        ensures
            did == (old(self).applied().len() > 0),
            !did ==> final(self).applied() == old(self).applied() && final(self).reverted() == old(
                self,
            ).reverted() && final(data)@ == old(data)@,
            did ==> final(self).applied() == old(self).applied().drop_last()
                && final(self).reverted() == old(self).reverted().push(
                A::undone(old(self).applied().last(), old(data)@).0,
            ) && final(data)@ == A::undone(old(self).applied().last(), old(data)@).1,
    {
        match self.done.pop() {
            Some(mut action) => {
                action.undo(data);
                self.undone.push(action);
                assert(self.applied() =~= old(self).applied().drop_last());
                assert(self.reverted() =~= old(self).reverted().push(action@));
                true
            },
            None => false,
        }
    }

    /// Applies again the action that was undone last, if there is one.
    /// Returns whether anything was applied.
    pub fn redo(&mut self, data: &mut A::Data) -> (did: bool)
        ensures
            did == (old(self).reverted().len() > 0),
            !did ==> final(self).applied() == old(self).applied() && final(self).reverted() == old(
                self,
            ).reverted() && final(data)@ == old(data)@,
            did ==> final(self).reverted() == old(self).reverted().drop_last()
                && final(self).applied() == old(self).applied().push(
                A::applied(old(self).reverted().last(), old(data)@).0,
            ) && final(data)@ == A::applied(old(self).reverted().last(), old(data)@).1,
    {
        match self.undone.pop() {
            Some(mut action) => {
                action.apply(data);
                self.done.push(action);
                assert(self.reverted() =~= old(self).reverted().drop_last());
                assert(self.applied() =~= old(self).applied().push(action@));
                true
            },
            None => false,
        }
    }
}

} // verus!
