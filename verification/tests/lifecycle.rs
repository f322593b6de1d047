use clawden::lifecycle::AgentState;

const STATES: [AgentState; 5] = [
    AgentState::Registered,
    AgentState::Installed,
    AgentState::Running,
    AgentState::Stopped,
    AgentState::Degraded,
];

fn in_table(from: AgentState, to: AgentState) -> bool {
    matches!(
        (from, to),
        (AgentState::Registered, AgentState::Installed)
            | (AgentState::Installed, AgentState::Running)
            | (AgentState::Running, AgentState::Stopped)
            | (AgentState::Running, AgentState::Degraded)
            | (AgentState::Degraded, AgentState::Running)
            | (AgentState::Stopped, AgentState::Running)
    )
}

#[test]
fn every_pair_of_states_follows_the_table() {
    let mut legal = 0;
    for from in STATES {
        for to in STATES {
            let expected = from == to || in_table(from, to);
            assert_eq!(from.can_transition_to(to), expected, "{:?} -> {:?}", from, to);
            if from != to && expected {
                legal += 1;
            }
        }
    }
    assert_eq!(legal, 6);
}

#[test]
fn staying_in_a_state_is_always_legal() {
    for state in STATES {
        assert!(state.can_transition_to(state));
    }
}

#[test]
fn illegal_moves_are_refused() {
    assert!(!AgentState::Registered.can_transition_to(AgentState::Running));
    assert!(!AgentState::Installed.can_transition_to(AgentState::Registered));
    assert!(!AgentState::Stopped.can_transition_to(AgentState::Degraded));
    assert!(!AgentState::Degraded.can_transition_to(AgentState::Stopped));
    assert!(!AgentState::Running.can_transition_to(AgentState::Installed));
}

#[test]
fn stopped_agent_can_be_restarted() {
    assert!(AgentState::Running.can_transition_to(AgentState::Stopped));
    assert!(AgentState::Stopped.can_transition_to(AgentState::Running));
}
