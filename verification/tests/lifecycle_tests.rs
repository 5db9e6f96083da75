use step_harness::errors::HarnessError;
use step_harness::lifecycle::{drive_session, NodeLifecycle, NodeState, SessionOutcome};

#[test]
fn session_with_slow_start_completes_and_pairs_stop() {
    let polls = vec![false, false, true];
    let steps = vec![true, true, true];
    let (node, outcome) = drive_session(&polls, &steps);
    assert_eq!(outcome, SessionOutcome::Completed);
    assert_eq!(node.state, NodeState::Stopped);
    assert_eq!(node.ready_count, 1);
    assert_eq!(node.stop_count, 1);
}

#[test]
fn rpc_failure_mid_sequence_still_stops_the_node() {
    let polls = vec![true];
    let steps = vec![true, false, true];
    let (node, outcome) = drive_session(&polls, &steps);
    assert_eq!(outcome, SessionOutcome::FailedAtStep(1));
    assert_eq!(node.state, NodeState::Stopped);
    assert_eq!(node.ready_count, 1);
    assert_eq!(node.stop_count, 1);
}

#[test]
fn node_that_never_answers_is_abandoned_without_a_stop() {
    let polls = vec![false, false, false, false];
    let steps = vec![true];
    let (node, outcome) = drive_session(&polls, &steps);
    assert_eq!(outcome, SessionOutcome::NodeNeverReady);
    assert_eq!(node.state, NodeState::AbortedStart);
    assert_eq!(node.ready_count, 0);
    assert_eq!(node.stop_count, 0);
}

#[test]
fn empty_step_list_completes() {
    let polls = vec![true];
    let steps: Vec<bool> = vec![];
    let (node, outcome) = drive_session(&polls, &steps);
    assert_eq!(outcome, SessionOutcome::Completed);
    assert_eq!(node.stop_count, 1);
}

#[test]
fn manual_transitions_follow_the_state_machine() {
    let mut node = NodeLifecycle::new();
    assert_eq!(node.state, NodeState::NotStarted);
    node.start(150);
    assert_eq!(node.state, NodeState::Starting);
    node.poll_result(false);
    assert_eq!(node.state, NodeState::Starting);
    assert_eq!(node.polls_left, 149);
    node.poll_result(true);
    assert_eq!(node.state, NodeState::Ready);
    node.begin_use();
    assert_eq!(node.state, NodeState::InUse);
    node.request_stop();
    assert_eq!(node.state, NodeState::Stopping);
    node.confirm_exit();
    assert_eq!(node.state, NodeState::Stopped);
    assert_eq!(node.ready_count, 1);
    assert_eq!(node.stop_count, 1);
    // Stopping an already stopped node is a no-op, not an error.
    node.request_stop();
    assert_eq!(node.state, NodeState::Stopped);
    assert_eq!(node.stop_count, 1);
}

#[test]
fn exhausted_poll_budget_abandons_the_start() {
    let mut node = NodeLifecycle::new();
    node.start(2);
    node.poll_result(false);
    assert_eq!(node.state, NodeState::Starting);
    assert_eq!(node.start_error(), None);
    node.poll_result(false);
    assert_eq!(node.state, NodeState::AbortedStart);
    assert_eq!(node.ready_count, 0);
    assert_eq!(node.start_error(), Some(HarnessError::NodeStartTimeout));
}
