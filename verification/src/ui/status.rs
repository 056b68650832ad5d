//! How the state of an agent is shown.

use vstd::prelude::*;

use crate::style::Style;
use crate::workspace::AgentState;

verus! {

/// How one state is shown.
#[derive(Clone, Copy, Debug)]
pub struct StatusLook {
    pub icon: &'static str,
    pub style: Style,
    pub label: &'static str,
}

/// How the states are shown; an idle agent is done until the user has seen it.
#[derive(Clone, Copy, Debug)]
pub struct StatusTheme {
    pub blocked: StatusLook,
    pub working: StatusLook,
    pub done: StatusLook,
    pub idle: StatusLook,
    pub unknown: StatusLook,
}

impl StatusTheme {
    /// How `state` is shown.
    #[verifier::allow_in_spec]
    pub fn look(self, state: AgentState, seen: bool) -> StatusLook
        returns
            (match (state, seen) {
                (AgentState::Blocked, _) => self.blocked,
                (AgentState::Working, _) => self.working,
                (AgentState::Idle, false) => self.done,
                (AgentState::Idle, true) => self.idle,
                (AgentState::Unknown, _) => self.unknown,
            }),
    {
        match (state, seen) {
            (AgentState::Blocked, _) => self.blocked,
            (AgentState::Working, _) => self.working,
            (AgentState::Idle, false) => self.done,
            (AgentState::Idle, true) => self.idle,
            (AgentState::Unknown, _) => self.unknown,
        }
    }
}

} // verus!
