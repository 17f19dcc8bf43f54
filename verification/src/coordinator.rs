//! The requester's side of one evaluation: waiting for the worker within
//! the budget, and ending a worker that overruns it.
//!
//! The coordinator decides; its driver waits on the channels, makes the
//! termination call and joins the worker, and reports what happened.

use vstd::prelude::*;
use crate::budget::Budgets;
use crate::session::{EvaluationOutcome, EvaluationOutcomeView};

verus! {

/// Where a request stands, seen from the requester.
#[derive(Clone, Copy, Debug, PartialEq, Eq, Structural)]
pub enum CoordinatorPhase {
    /// The worker has been spawned; its cancellation handle is awaited.
    Spawned,
    /// The handle is here; the worker's result is awaited within the budget.
    HandlePublished,
    /// The result arrived in time.
    Completed,
    /// The budget has elapsed; the worker is to be terminated.
    TimedOut,
    /// The termination call has been made; the worker's exit is awaited.
    Terminating,
    /// The terminated worker has exited and yielded what it had.
    Joined,
    /// The worker was lost without a result.
    Failed,
}

/// What the driver reports to the coordinator.
#[derive(Debug, PartialEq, Eq)]
pub enum CoordinatorEvent {
    /// The worker has published its cancellation handle.
    HandleReceived,
    /// The worker's result has arrived.
    ResultReceived(EvaluationOutcome),
    /// The budget has elapsed without a result.
    BudgetElapsed,
    /// The termination call has been made.
    TerminationIssued,
    /// The worker has exited and yielded its outcome.
    WorkerExited(EvaluationOutcome),
    /// A channel to the worker has closed with nothing on it.
    ChannelClosed,
}

/// The mathematical content of a [`CoordinatorEvent`].
pub enum CoordinatorEventView {
    HandleReceived,
    ResultReceived(EvaluationOutcomeView),
    BudgetElapsed,
    TerminationIssued,
    WorkerExited(EvaluationOutcomeView),
    ChannelClosed,
}

impl View for CoordinatorEvent {
    type V = CoordinatorEventView;

    open spec fn view(&self) -> CoordinatorEventView {
        match self {
            CoordinatorEvent::HandleReceived => CoordinatorEventView::HandleReceived,
            CoordinatorEvent::ResultReceived(outcome) => CoordinatorEventView::ResultReceived(
                outcome@,
            ),
            CoordinatorEvent::BudgetElapsed => CoordinatorEventView::BudgetElapsed,
            CoordinatorEvent::TerminationIssued => CoordinatorEventView::TerminationIssued,
            CoordinatorEvent::WorkerExited(outcome) => CoordinatorEventView::WorkerExited(
                outcome@,
            ),
            CoordinatorEvent::ChannelClosed => CoordinatorEventView::ChannelClosed,
        }
    }
}

/// What the coordinator asks its driver to do next.
#[derive(Debug, PartialEq, Eq)]
pub enum CoordinatorAction {
    /// Wait for the worker's result, for at most the budget.
    AwaitResult { budget_ms: u64 },
    /// Force the interpreter to stop, through the cancellation handle.
    Terminate,
    /// Block until the worker has exited.
    Join,
    /// Hand the outcome to the document store: the request is over.
    Deliver(EvaluationOutcome),
    /// Report that the worker was lost: the request is over.
    Fail,
    /// The event does not belong to the phase; nothing changes.
    Unexpected,
}

/// The mathematical content of a [`CoordinatorAction`].
pub enum CoordinatorActionView {
    AwaitResult { budget_ms: nat },
    Terminate,
    Join,
    Deliver(EvaluationOutcomeView),
    Fail,
    Unexpected,
}

impl View for CoordinatorAction {
    type V = CoordinatorActionView;

    open spec fn view(&self) -> CoordinatorActionView {
        match self {
            CoordinatorAction::AwaitResult { budget_ms } => CoordinatorActionView::AwaitResult {
                budget_ms: *budget_ms as nat,
            },
            CoordinatorAction::Terminate => CoordinatorActionView::Terminate,
            CoordinatorAction::Join => CoordinatorActionView::Join,
            CoordinatorAction::Deliver(outcome) => CoordinatorActionView::Deliver(outcome@),
            CoordinatorAction::Fail => CoordinatorActionView::Fail,
            CoordinatorAction::Unexpected => CoordinatorActionView::Unexpected,
        }
    }
}

/// One step of the coordinator: the phase after `event`, and what is to be
/// done next. The result is only awaited once the handle is here, and the
/// termination call is only asked for when the budget elapses while the
/// result is awaited.
pub open spec fn coordinator_step(
    phase: CoordinatorPhase,
    budget_ms: nat,
    event: CoordinatorEventView,
) -> (CoordinatorPhase, CoordinatorActionView) {
    match (phase, event) {
        (CoordinatorPhase::Spawned, CoordinatorEventView::HandleReceived) => (
            CoordinatorPhase::HandlePublished,
            CoordinatorActionView::AwaitResult { budget_ms },
        ),
        (CoordinatorPhase::HandlePublished, CoordinatorEventView::ResultReceived(outcome)) => (
            CoordinatorPhase::Completed,
            CoordinatorActionView::Deliver(outcome),
        ),
        (CoordinatorPhase::HandlePublished, CoordinatorEventView::BudgetElapsed) => (
            CoordinatorPhase::TimedOut,
            CoordinatorActionView::Terminate,
        ),
        (CoordinatorPhase::TimedOut, CoordinatorEventView::TerminationIssued) => (
            CoordinatorPhase::Terminating,
            CoordinatorActionView::Join,
        ),
        (CoordinatorPhase::Terminating, CoordinatorEventView::WorkerExited(outcome)) => (
            CoordinatorPhase::Joined,
            CoordinatorActionView::Deliver(outcome),
        ),
        (CoordinatorPhase::Spawned, CoordinatorEventView::ChannelClosed) => (
            CoordinatorPhase::Failed,
            CoordinatorActionView::Fail,
        ),
        (CoordinatorPhase::HandlePublished, CoordinatorEventView::ChannelClosed) => (
            CoordinatorPhase::Failed,
            CoordinatorActionView::Fail,
        ),
        (CoordinatorPhase::Terminating, CoordinatorEventView::ChannelClosed) => (
            CoordinatorPhase::Failed,
            CoordinatorActionView::Fail,
        ),
        _ => (phase, CoordinatorActionView::Unexpected),
    }
}

/// The actions that a coordinator takes on a series of events, one for each
/// event.
pub open spec fn coordinator_actions(
    phase: CoordinatorPhase,
    budget_ms: nat,
    events: Seq<CoordinatorEventView>,
) -> Seq<CoordinatorActionView>
    decreases events.len(),
{
    if events.len() == 0 {
        Seq::empty()
    } else {
        let (next, action) = coordinator_step(phase, budget_ms, events[0]);
        seq![action] + coordinator_actions(next, budget_ms, events.drop_first())
    }
}

/// How many of the actions ask for the termination call.
pub open spec fn terminations(actions: Seq<CoordinatorActionView>) -> nat
    decreases actions.len(),
{
    if actions.len() == 0 {
        0
    } else {
        let first: nat = if actions[0] == CoordinatorActionView::Terminate {
            1
        } else {
            0
        };
        first + terminations(actions.drop_first())
    }
}

/// Whether a phase lies before the point at which the budget can elapse.
pub open spec fn awaits_worker(phase: CoordinatorPhase) -> bool {
    phase == CoordinatorPhase::Spawned || phase == CoordinatorPhase::HandlePublished
}

/// At most one termination call is ever asked for, whatever is reported
/// and in whatever order; none once the budget has elapsed or the request
/// has ended.
pub proof fn lemma_single_termination(
    phase: CoordinatorPhase,
    budget_ms: nat,
    events: Seq<CoordinatorEventView>,
)
    ensures
        terminations(coordinator_actions(phase, budget_ms, events)) <= 1,
        !awaits_worker(phase) ==> terminations(coordinator_actions(phase, budget_ms, events)) == 0,
    decreases events.len(),
{
    if events.len() > 0 {
        let (next, action) = coordinator_step(phase, budget_ms, events[0]);
        let rest = coordinator_actions(next, budget_ms, events.drop_first());
        lemma_single_termination(next, budget_ms, events.drop_first());
        let all = coordinator_actions(phase, budget_ms, events);
        assert(all.drop_first() =~= rest);
        assert(all[0] == action);
    }
}

/// The termination call is asked for only when the budget elapses while
/// the result is awaited, and so never before the worker has published its
/// cancellation handle.
pub proof fn lemma_termination_needs_handle(
    phase: CoordinatorPhase,
    budget_ms: nat,
    event: CoordinatorEventView,
)
    ensures
        coordinator_step(phase, budget_ms, event).1 == CoordinatorActionView::Terminate <==> phase
            == CoordinatorPhase::HandlePublished && event == CoordinatorEventView::BudgetElapsed,
{
}

/// A request whose worker overruns the budget still ends: the worker is
/// terminated, joined, and what it yields is delivered. A request whose
/// result arrives in time is delivered at once, with no termination.
pub proof fn lemma_request_ends(
    budget_ms: nat,
    in_time: EvaluationOutcomeView,
    yielded: EvaluationOutcomeView,
)
    ensures
        coordinator_actions(
            CoordinatorPhase::Spawned,
            budget_ms,
            seq![
                CoordinatorEventView::HandleReceived,
                CoordinatorEventView::ResultReceived(in_time),
            ],
        ) == seq![
            CoordinatorActionView::AwaitResult { budget_ms },
            CoordinatorActionView::Deliver(in_time),
        ],
        coordinator_actions(
            CoordinatorPhase::Spawned,
            budget_ms,
            seq![
                CoordinatorEventView::HandleReceived,
                CoordinatorEventView::BudgetElapsed,
                CoordinatorEventView::TerminationIssued,
                CoordinatorEventView::WorkerExited(yielded),
            ],
        ) == seq![
            CoordinatorActionView::AwaitResult { budget_ms },
            CoordinatorActionView::Terminate,
            CoordinatorActionView::Join,
            CoordinatorActionView::Deliver(yielded),
        ],
{
    let quick = seq![
        CoordinatorEventView::HandleReceived,
        CoordinatorEventView::ResultReceived(in_time),
    ];
    assert(quick.drop_first() =~= seq![CoordinatorEventView::ResultReceived(in_time)]);
    assert(quick.drop_first().drop_first() =~= Seq::empty());
    assert(coordinator_actions(CoordinatorPhase::Completed, budget_ms, Seq::empty())
        =~= Seq::empty());
    assert(coordinator_actions(CoordinatorPhase::HandlePublished, budget_ms, quick.drop_first())
        =~= seq![CoordinatorActionView::Deliver(in_time)]);
    assert(coordinator_actions(CoordinatorPhase::Spawned, budget_ms, quick) =~= seq![
        CoordinatorActionView::AwaitResult { budget_ms },
        CoordinatorActionView::Deliver(in_time),
    ]);

    let slow = seq![
        CoordinatorEventView::HandleReceived,
        CoordinatorEventView::BudgetElapsed,
        CoordinatorEventView::TerminationIssued,
        CoordinatorEventView::WorkerExited(yielded),
    ];
    let after_handle = slow.drop_first();
    let after_budget = after_handle.drop_first();
    let after_call = after_budget.drop_first();
    assert(after_handle =~= seq![
        CoordinatorEventView::BudgetElapsed,
        CoordinatorEventView::TerminationIssued,
        CoordinatorEventView::WorkerExited(yielded),
    ]);
    assert(after_budget =~= seq![
        CoordinatorEventView::TerminationIssued,
        CoordinatorEventView::WorkerExited(yielded),
    ]);
    assert(after_call =~= seq![CoordinatorEventView::WorkerExited(yielded)]);
    assert(after_call.drop_first() =~= Seq::empty());
    assert(coordinator_actions(CoordinatorPhase::Joined, budget_ms, Seq::empty())
        =~= Seq::empty());
    assert(coordinator_actions(CoordinatorPhase::Terminating, budget_ms, after_call) =~= seq![
        CoordinatorActionView::Deliver(yielded),
    ]);
    assert(coordinator_actions(CoordinatorPhase::TimedOut, budget_ms, after_budget) =~= seq![
        CoordinatorActionView::Join,
        CoordinatorActionView::Deliver(yielded),
    ]);
    assert(coordinator_actions(CoordinatorPhase::HandlePublished, budget_ms, after_handle) =~= seq![
        CoordinatorActionView::Terminate,
        CoordinatorActionView::Join,
        CoordinatorActionView::Deliver(yielded),
    ]);
    assert(coordinator_actions(CoordinatorPhase::Spawned, budget_ms, slow) =~= seq![
        CoordinatorActionView::AwaitResult { budget_ms },
        CoordinatorActionView::Terminate,
        CoordinatorActionView::Join,
        CoordinatorActionView::Deliver(yielded),
    ]);
}

/// The requester's side of one request.
pub struct Coordinator {
    phase: CoordinatorPhase,
    budget_ms: u64,
}

/// The state of a coordinator: where the request stands, and the budget
/// within which the result is awaited, in milliseconds.
pub struct CoordinatorView {
    pub phase: CoordinatorPhase,
    pub budget_ms: nat,
}

impl View for Coordinator {
    type V = CoordinatorView;

    closed spec fn view(&self) -> CoordinatorView {
        CoordinatorView { phase: self.phase, budget_ms: self.budget_ms as nat }
    }
}

impl Coordinator {
    /// A coordinator for a worker that has just been spawned.
    pub fn new(budgets: &Budgets) -> (coordinator: Coordinator)
        ensures
            coordinator@ == (CoordinatorView {
                phase: CoordinatorPhase::Spawned,
                budget_ms: budgets.overall(),
            }),
    {
        Coordinator { phase: CoordinatorPhase::Spawned, budget_ms: budgets.overall_ms() }
    }

    /// Where the request stands.
    pub fn phase(&self) -> (phase: CoordinatorPhase)
        ensures
            phase == self@.phase,
    {
        self.phase
    }

    /// Takes one step: notes what `event` reports and says what is to be
    /// done next.
    pub fn step(&mut self, event: CoordinatorEvent) -> (action: CoordinatorAction)
        ensures
            (final(self)@.phase, action@) == coordinator_step(
                old(self)@.phase,
                old(self)@.budget_ms,
                event@,
            ),
            final(self)@.budget_ms == old(self)@.budget_ms,
    {
        match (self.phase, event) {
            (CoordinatorPhase::Spawned, CoordinatorEvent::HandleReceived) => {
                self.phase = CoordinatorPhase::HandlePublished;
                CoordinatorAction::AwaitResult { budget_ms: self.budget_ms }
            },
            (CoordinatorPhase::HandlePublished, CoordinatorEvent::ResultReceived(outcome)) => {
                self.phase = CoordinatorPhase::Completed;
                CoordinatorAction::Deliver(outcome)
            },
            (CoordinatorPhase::HandlePublished, CoordinatorEvent::BudgetElapsed) => {
                self.phase = CoordinatorPhase::TimedOut;
                CoordinatorAction::Terminate
            },
            (CoordinatorPhase::TimedOut, CoordinatorEvent::TerminationIssued) => {
                self.phase = CoordinatorPhase::Terminating;
                CoordinatorAction::Join
            },
            (CoordinatorPhase::Terminating, CoordinatorEvent::WorkerExited(outcome)) => {
                self.phase = CoordinatorPhase::Joined;
                CoordinatorAction::Deliver(outcome)
            },
            (CoordinatorPhase::Spawned, CoordinatorEvent::ChannelClosed) => {
                self.phase = CoordinatorPhase::Failed;
                CoordinatorAction::Fail
            },
            (CoordinatorPhase::HandlePublished, CoordinatorEvent::ChannelClosed) => {
                self.phase = CoordinatorPhase::Failed;
                CoordinatorAction::Fail
            },
            (CoordinatorPhase::Terminating, CoordinatorEvent::ChannelClosed) => {
                self.phase = CoordinatorPhase::Failed;
                CoordinatorAction::Fail
            },
            _ => CoordinatorAction::Unexpected,
        }
    }
}

} // verus!
