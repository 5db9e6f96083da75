//! Lifecycle of the ephemeral execution node: spawn, bounded readiness
//! polling, and teardown. The state machine lives here; the process and RPC
//! work that drives it stays outside the library.

use vstd::prelude::*;

verus! {

/// The phases of one node's life.
#[derive(Clone, Copy, Debug, PartialEq, Eq, Structural)]
pub enum NodeState {
    /// No process has been spawned.
    NotStarted,
    /// The process is spawned and the readiness poll is running.
    Starting,
    /// The node answered the version query and is ready for work.
    Ready,
    /// The node is serving deployment or test traffic.
    InUse,
    /// The termination signal was sent; waiting for the process to exit.
    Stopping,
    /// The process has exited after a stop.
    Stopped,
    /// The readiness poll budget ran out; the start was abandoned.
    AbortedStart,
    /// The node failed while in use.
    Crashed,
}

/// A node that was seen ready and has not yet completed a stop.
pub open spec fn live(s: NodeState) -> bool {
    s is Ready || s is InUse || s is Stopping || s is Crashed
}

/// One node's lifecycle, with counters pairing every start that reached
/// `Ready` with the stop that ends it.
pub struct NodeLifecycle {
    pub state: NodeState,
    pub polls_left: u64,
    pub ready_count: u64,
    pub stop_count: u64,
}

/// The bookkeeping invariant: completed stops lag the starts that reached
/// `Ready` by exactly one while the node is live, and match them otherwise.
pub open spec fn lifecycle_inv(m: NodeLifecycle) -> bool {
    &&& m.stop_count + (if live(m.state) {
        1int
    } else {
        0int
    }) == m.ready_count
    &&& (m.state is Starting ==> m.polls_left > 0)
}

impl NodeLifecycle {
    /// A lifecycle with no process yet.
    pub fn new() -> (r: Self)
        ensures
            r.state is NotStarted,
            r.ready_count == 0,
            r.stop_count == 0,
            lifecycle_inv(r),
    {
        NodeLifecycle { state: NodeState::NotStarted, polls_left: 0, ready_count: 0, stop_count: 0 }
    }

    /// The process was spawned: begin polling, with a bounded retry budget.
    pub fn start(&mut self, poll_budget: u64)
        requires
            lifecycle_inv(*old(self)),
            old(self).state is NotStarted || old(self).state is Stopped,
            poll_budget > 0,
        ensures
            lifecycle_inv(*final(self)),
            final(self).state is Starting,
            final(self).polls_left == poll_budget,
            final(self).ready_count == old(self).ready_count,
            final(self).stop_count == old(self).stop_count,
    {
        self.state = NodeState::Starting;
        self.polls_left = poll_budget;
    }

    /// One readiness poll came back: success makes the node `Ready`; failure
    /// spends one poll, and spending the last one abandons the start.
    pub fn poll_result(&mut self, success: bool)
        requires
            lifecycle_inv(*old(self)),
            old(self).state is Starting,
            old(self).ready_count < u64::MAX,
        ensures
            lifecycle_inv(*final(self)),
            success ==> final(self).state is Ready && final(self).ready_count == old(self).ready_count
                + 1,
            !success && old(self).polls_left > 1 ==> final(self).state is Starting
                && final(self).polls_left == old(self).polls_left - 1,
            !success && old(self).polls_left == 1 ==> final(self).state is AbortedStart,
            !success ==> final(self).ready_count == old(self).ready_count,
            final(self).stop_count == old(self).stop_count,
    {
        if success {
            self.state = NodeState::Ready;
            self.ready_count = self.ready_count + 1;
        } else {
            self.polls_left = self.polls_left - 1;
            if self.polls_left == 0 {
                self.state = NodeState::AbortedStart;
            }
        }
    }

    /// The node begins serving deployment or test traffic.
    pub fn begin_use(&mut self)
        requires
            lifecycle_inv(*old(self)),
            old(self).state is Ready || old(self).state is InUse,
        ensures
            lifecycle_inv(*final(self)),
            final(self).state is InUse,
            final(self).ready_count == old(self).ready_count,
            final(self).stop_count == old(self).stop_count,
    {
        self.state = NodeState::InUse;
    }

    /// The node failed while in use.
    pub fn mark_crashed(&mut self)
        requires
            lifecycle_inv(*old(self)),
            old(self).state is Ready || old(self).state is InUse,
        ensures
            lifecycle_inv(*final(self)),
            final(self).state is Crashed,
            final(self).ready_count == old(self).ready_count,
            final(self).stop_count == old(self).stop_count,
    {
        self.state = NodeState::Crashed;
    }

    /// The termination signal is sent. Stopping an already stopped or
    /// abandoned node is a no-op, not an error.
    pub fn request_stop(&mut self)
        requires
            lifecycle_inv(*old(self)),
            !(old(self).state is NotStarted),
            !(old(self).state is Starting),
        ensures
            lifecycle_inv(*final(self)),
            live(old(self).state) ==> final(self).state is Stopping,
            !live(old(self).state) ==> *final(self) == *old(self),
            final(self).ready_count == old(self).ready_count,
            final(self).stop_count == old(self).stop_count,
    {
        match self.state {
            NodeState::Ready => self.state = NodeState::Stopping,
            NodeState::InUse => self.state = NodeState::Stopping,
            NodeState::Crashed => self.state = NodeState::Stopping,
            NodeState::Stopping => (),
            _ => (),
        }
    }

    /// The error a start reports: `NodeStartTimeout` exactly when the poll
    /// budget ran out before the node answered.
    pub fn start_error(&self) -> (r: Option<crate::errors::HarnessError>)
        ensures
            r == (if self.state is AbortedStart {
                Some(crate::errors::HarnessError::NodeStartTimeout)
            } else {
                None::<crate::errors::HarnessError>
            }),
    {
        match self.state {
            NodeState::AbortedStart => Some(crate::errors::HarnessError::NodeStartTimeout),
            _ => None,
        }
    }

    /// The process exited after a stop: the stop is complete.
    pub fn confirm_exit(&mut self)
        requires
            lifecycle_inv(*old(self)),
            old(self).state is Stopping,
        ensures
            lifecycle_inv(*final(self)),
            final(self).state is Stopped,
            final(self).ready_count == old(self).ready_count,
            final(self).stop_count == old(self).stop_count + 1,
    {
        self.state = NodeState::Stopped;
        self.stop_count = self.stop_count + 1;
    }
}

/// Once a node is no longer live — stopped, never started, or abandoned
/// before it was ready — every start that reached `Ready` has been matched
/// by exactly one completed stop.
pub proof fn lemma_lifecycle_pairing(m: NodeLifecycle)
    requires
        lifecycle_inv(m),
        !live(m.state),
    ensures
        m.stop_count == m.ready_count,
{
}

/// How one node session ended.
#[derive(Clone, Copy, Debug, PartialEq, Eq, Structural)]
pub enum SessionOutcome {
    /// The readiness poll budget ran out; no test traffic was sent.
    NodeNeverReady,
    /// Every step transaction succeeded.
    Completed,
    /// The step at this position failed; the rest were abandoned.
    FailedAtStep(usize),
}

/// Drives one whole node session over given outcomes: spawn, poll until
/// ready or the budget runs out, send each step while they succeed, and
/// tear the node down on every path — also when a step fails mid-sequence.
///
/// `poll_outcomes[i]` is the result of the `i`-th readiness poll were it
/// made; `step_outcomes[j]` is the result of the `j`-th step transaction
/// were it sent.
pub fn drive_session(poll_outcomes: &Vec<bool>, step_outcomes: &Vec<bool>) -> (r: (
    NodeLifecycle,
    SessionOutcome,
))
    requires
        poll_outcomes@.len() > 0,
    ensures
        lifecycle_inv(r.0),
        !live(r.0.state),
        r.0.stop_count == r.0.ready_count,
        (exists|i: int| 0 <= i < poll_outcomes@.len() && poll_outcomes@[i]) ==> r.0.state
            is Stopped && r.0.ready_count == 1 && r.0.stop_count == 1,
        r.1 is NodeNeverReady <==> (forall|i: int|
            0 <= i < poll_outcomes@.len() ==> !poll_outcomes@[i]),
        (forall|i: int| 0 <= i < poll_outcomes@.len() ==> !poll_outcomes@[i]) ==> r.1
            is NodeNeverReady && r.0.state is AbortedStart && r.0.ready_count == 0,
        r.1 is Completed ==> (exists|i: int| 0 <= i < poll_outcomes@.len() && poll_outcomes@[i])
            && forall|j: int| 0 <= j < step_outcomes@.len() ==> step_outcomes@[j],
        match r.1 {
            SessionOutcome::FailedAtStep(k) => k < step_outcomes@.len() && !step_outcomes@[k as int]
                && forall|j: int| 0 <= j < k ==> step_outcomes@[j],
            _ => true,
        },
        (exists|i: int| 0 <= i < poll_outcomes@.len() && poll_outcomes@[i]) && (forall|j: int|
            0 <= j < step_outcomes@.len() ==> step_outcomes@[j]) ==> r.1 is Completed,
{
    let mut node = NodeLifecycle::new();
    let n_polls = poll_outcomes.len();
    node.start(n_polls as u64);
    let mut ready = false;
    let mut i: usize = 0;
    while i < n_polls && !ready
        invariant
            n_polls == poll_outcomes@.len(),
            0 < n_polls,
            i <= n_polls,
            lifecycle_inv(node),
            node.stop_count == 0,
            ready ==> node.state is Ready && node.ready_count == 1 && exists|j: int|
                0 <= j < poll_outcomes@.len() && poll_outcomes@[j],
            !ready ==> node.ready_count == 0 && (forall|j: int| 0 <= j < i ==> !poll_outcomes@[j]),
            !ready && i < n_polls ==> node.state is Starting && node.polls_left == n_polls - i,
            !ready && i == n_polls ==> node.state is AbortedStart,
        decreases n_polls - i, (if ready {
            0int
        } else {
            1int
        }),
    {
        let ok = poll_outcomes[i];
        node.poll_result(ok);
        if ok {
            ready = true;
            proof {
                assert(poll_outcomes@[i as int]);
            }
        } else {
            i = i + 1;
        }
    }
    if !ready {
        proof {
            assert(node.state is AbortedStart);
        }
        return (node, SessionOutcome::NodeNeverReady);
    }

    node.begin_use();
    let n_steps = step_outcomes.len();
    let mut failed = false;
    let mut fail_at: usize = 0;
    let mut j: usize = 0;
    while j < n_steps && !failed
        invariant
            n_steps == step_outcomes@.len(),
            j <= n_steps,
            lifecycle_inv(node),
            node.ready_count == 1,
            node.stop_count == 0,
            !failed ==> node.state is InUse && (forall|j2: int| 0 <= j2 < j ==> step_outcomes@[j2]),
            failed ==> node.state is Crashed && fail_at < n_steps && !step_outcomes@[fail_at as int]
                && (forall|j2: int| 0 <= j2 < fail_at ==> step_outcomes@[j2]),
        decreases n_steps - j, (if failed {
            0int
        } else {
            1int
        }),
    {
        if step_outcomes[j] {
            j = j + 1;
        } else {
            failed = true;
            fail_at = j;
            node.mark_crashed();
        }
    }

    node.request_stop();
    node.confirm_exit();
    if failed {
        (node, SessionOutcome::FailedAtStep(fail_at))
    } else {
        (node, SessionOutcome::Completed)
    }
}

} // verus!
