use xtal::budget::Budgets;
use xtal::coordinator::{Coordinator, CoordinatorAction, CoordinatorEvent, CoordinatorPhase};
use xtal::session::EvaluationOutcome;

fn coordinator() -> Coordinator {
    Coordinator::new(&Budgets::new(2000, 200, 1500).unwrap())
}

fn outcome(result: &str, errors: &[&str]) -> EvaluationOutcome {
    EvaluationOutcome {
        formatted_result: result.to_string(),
        errors: errors.iter().map(|e| e.to_string()).collect(),
    }
}

#[test]
fn result_in_time_completes_the_request() {
    let mut coordinator = coordinator();
    assert_eq!(coordinator.phase(), CoordinatorPhase::Spawned);
    assert_eq!(
        coordinator.step(CoordinatorEvent::HandleReceived),
        CoordinatorAction::AwaitResult { budget_ms: 2000 }
    );
    assert_eq!(coordinator.phase(), CoordinatorPhase::HandlePublished);
    assert_eq!(
        coordinator.step(CoordinatorEvent::ResultReceived(outcome("5\n", &[]))),
        CoordinatorAction::Deliver(outcome("5\n", &[]))
    );
    assert_eq!(coordinator.phase(), CoordinatorPhase::Completed);
}

#[test]
fn runaway_script_is_terminated_and_joined() {
    let mut coordinator = coordinator();
    coordinator.step(CoordinatorEvent::HandleReceived);
    assert_eq!(coordinator.step(CoordinatorEvent::BudgetElapsed), CoordinatorAction::Terminate);
    assert_eq!(coordinator.phase(), CoordinatorPhase::TimedOut);
    assert_eq!(coordinator.step(CoordinatorEvent::TerminationIssued), CoordinatorAction::Join);
    assert_eq!(coordinator.phase(), CoordinatorPhase::Terminating);
    let partial = outcome("", &["Uncaught Error: execution terminated"]);
    assert_eq!(
        coordinator.step(CoordinatorEvent::WorkerExited(partial)),
        CoordinatorAction::Deliver(outcome("", &["Uncaught Error: execution terminated"]))
    );
    assert_eq!(coordinator.phase(), CoordinatorPhase::Joined);
}

#[test]
fn budget_cannot_elapse_before_the_handle_is_published() {
    let mut coordinator = coordinator();
    assert_eq!(coordinator.step(CoordinatorEvent::BudgetElapsed), CoordinatorAction::Unexpected);
    assert_eq!(coordinator.phase(), CoordinatorPhase::Spawned);
    assert_eq!(
        coordinator.step(CoordinatorEvent::ResultReceived(outcome("", &[]))),
        CoordinatorAction::Unexpected
    );
    assert_eq!(coordinator.phase(), CoordinatorPhase::Spawned);
}

#[test]
fn termination_is_asked_for_once() {
    let mut coordinator = coordinator();
    let events = vec![
        CoordinatorEvent::BudgetElapsed,
        CoordinatorEvent::HandleReceived,
        CoordinatorEvent::BudgetElapsed,
        CoordinatorEvent::BudgetElapsed,
        CoordinatorEvent::TerminationIssued,
        CoordinatorEvent::BudgetElapsed,
        CoordinatorEvent::WorkerExited(outcome("", &[])),
        CoordinatorEvent::BudgetElapsed,
        CoordinatorEvent::HandleReceived,
        CoordinatorEvent::BudgetElapsed,
    ];
    let mut terminations = 0;
    for event in events {
        if coordinator.step(event) == CoordinatorAction::Terminate {
            terminations += 1;
        }
    }
    assert_eq!(terminations, 1);
    assert_eq!(coordinator.phase(), CoordinatorPhase::Joined);
}

#[test]
fn late_result_after_timeout_is_not_delivered_twice() {
    let mut coordinator = coordinator();
    coordinator.step(CoordinatorEvent::HandleReceived);
    coordinator.step(CoordinatorEvent::BudgetElapsed);
    assert_eq!(
        coordinator.step(CoordinatorEvent::ResultReceived(outcome("late", &[]))),
        CoordinatorAction::Unexpected
    );
    assert_eq!(coordinator.phase(), CoordinatorPhase::TimedOut);
}

#[test]
fn closed_channel_fails_the_request() {
    let mut waiting_for_handle = coordinator();
    assert_eq!(waiting_for_handle.step(CoordinatorEvent::ChannelClosed), CoordinatorAction::Fail);
    assert_eq!(waiting_for_handle.phase(), CoordinatorPhase::Failed);

    let mut waiting_for_result = coordinator();
    waiting_for_result.step(CoordinatorEvent::HandleReceived);
    assert_eq!(waiting_for_result.step(CoordinatorEvent::ChannelClosed), CoordinatorAction::Fail);

    let mut waiting_for_exit = coordinator();
    waiting_for_exit.step(CoordinatorEvent::HandleReceived);
    waiting_for_exit.step(CoordinatorEvent::BudgetElapsed);
    waiting_for_exit.step(CoordinatorEvent::TerminationIssued);
    assert_eq!(waiting_for_exit.step(CoordinatorEvent::ChannelClosed), CoordinatorAction::Fail);
    assert_eq!(waiting_for_exit.phase(), CoordinatorPhase::Failed);
}

#[test]
fn ended_request_accepts_nothing_more() {
    let mut coordinator = coordinator();
    coordinator.step(CoordinatorEvent::HandleReceived);
    coordinator.step(CoordinatorEvent::ResultReceived(outcome("", &[])));
    assert_eq!(coordinator.step(CoordinatorEvent::BudgetElapsed), CoordinatorAction::Unexpected);
    assert_eq!(coordinator.step(CoordinatorEvent::HandleReceived), CoordinatorAction::Unexpected);
    assert_eq!(coordinator.step(CoordinatorEvent::ChannelClosed), CoordinatorAction::Unexpected);
    assert_eq!(coordinator.phase(), CoordinatorPhase::Completed);
}
