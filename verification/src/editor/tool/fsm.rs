//! Finite state machines that drive tools.

use vstd::prelude::*;
use std::collections::VecDeque;
use crate::editor::tool::action_views;

verus! {

/// A finite state machine used for a tool.
///
/// A transition takes the machine from one state to the next and may ask
/// for actions, which it appends to a queue; it never applies them itself.
pub trait Fsm: Sized {
    /// What the machine reacts to.
    type Message;

    /// What the machine may consult while it decides.
    type Data;

    /// What the machine asks for.
    type Action: View;

    /// The state that follows `self` on `message`, and the actions that the
    /// transition asks for, in order. Defined for every state and message.
    spec fn step(self, message: Self::Message, data: Self::Data) -> (
        Self,
        Seq<<Self::Action as View>::V>,
    );

    /// Makes the transition for `message`: returns the next state and
    /// appends the actions asked for to `actions`.
    fn transition(
        self,
        message: Self::Message,
        data: Self::Data,
        actions: &mut VecDeque<Self::Action>,
    ) -> (next: Self)
        ensures
            next == self.step(message, data).0,
            action_views(final(actions)@) == action_views(old(actions)@) + self.step(
                message,
                data,
            ).1,
    ;
}

} // verus!
