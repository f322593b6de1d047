//! The agent lifecycle: a finite state machine over [`AgentState`].
//!
//! The machine stores nothing. It offers one pure predicate that says
//! whether a move between two states is legal; whoever holds an agent's
//! state consults it before every change.

use vstd::prelude::*;

verus! {

/// The state of one agent instance. Every agent starts as `Registered`.
#[derive(Debug, Clone, Copy, PartialEq, Eq, Structural)]
pub enum AgentState {
    Registered,
    Installed,
    Running,
    Stopped,
    Degraded,
}

/// The table of moves between two different states.
pub open spec fn legal_step(from: AgentState, to: AgentState) -> bool {
    ||| from == AgentState::Registered && to == AgentState::Installed
    ||| from == AgentState::Installed && to == AgentState::Running
    ||| from == AgentState::Running && to == AgentState::Stopped
    ||| from == AgentState::Running && to == AgentState::Degraded
    ||| from == AgentState::Degraded && to == AgentState::Running
    ||| from == AgentState::Stopped && to == AgentState::Running
}

impl AgentState {
    /// A move is allowed when the table lists it or when it goes nowhere.
    pub open spec fn allows(self, next: AgentState) -> bool {
        self == next || legal_step(self, next)
    }

    /// Says whether an agent in state `self` may move to `next`.
    pub fn can_transition_to(self, next: AgentState) -> (ok: bool)
        ensures
            ok == self.allows(next),
    {
        match (self, next) {
            (AgentState::Registered, AgentState::Installed) => true,
            (AgentState::Installed, AgentState::Running) => true,
            (AgentState::Running, AgentState::Stopped) => true,
            (AgentState::Running, AgentState::Degraded) => true,
            (AgentState::Degraded, AgentState::Running) => true,
            (AgentState::Stopped, AgentState::Running) => true,
            _ => self == next,
        }
    }
}

} // verus!
