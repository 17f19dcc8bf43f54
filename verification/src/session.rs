//! The protocol of one sandboxed evaluation.
//!
//! A session decides what is done next; its driver does it and reports back.
//! Before anything is evaluated, the handle by which the requester can stop
//! the interpreter is published. The source is then run as written, in an
//! interpreter of its own, to find the errors of the program itself. Only a
//! source that parsed and ran without error is instrumented and run a second
//! time, in a second interpreter that has the reporting hook bound; what the
//! hook collected is then laid out as the result.

use vstd::prelude::*;
use vstd::string::*;
use crate::budget::Budgets;
use crate::event::{event_views, DebugEvent, DebugEventView};
use crate::format::{report, transform_to_result};
use crate::text::texts_view;

verus! {

/// What one request ends with: the report, and the diagnostics in order.
#[derive(Debug, Clone, PartialEq, Eq)]
pub struct EvaluationOutcome {
    pub formatted_result: String,
    pub errors: Vec<String>,
}

/// The mathematical content of an [`EvaluationOutcome`].
pub struct EvaluationOutcomeView {
    pub formatted_result: Seq<char>,
    pub errors: Seq<Seq<char>>,
}

impl View for EvaluationOutcome {
    type V = EvaluationOutcomeView;

    open spec fn view(&self) -> EvaluationOutcomeView {
        EvaluationOutcomeView {
            formatted_result: self.formatted_result@,
            errors: texts_view(self.errors@),
        }
    }
}

/// How far a session has come.
#[derive(Clone, Copy, Debug, PartialEq, Eq, Structural)]
pub enum SessionPhase {
    /// Nothing has been done.
    Created,
    /// The cancellation handle of the worker's interpreter is being
    /// published.
    Publishing,
    /// The source is being run as written.
    RawRun,
    /// The source is being parsed.
    Parsing,
    /// The instrumented source is being run.
    InstrumentedRun,
    /// The reported events are being read back.
    Collecting,
    /// The outcome has been handed out.
    Finished,
}

/// What the driver reports to the session.
#[derive(Debug, PartialEq, Eq)]
pub enum SessionEvent {
    /// The request has arrived.
    Started,
    /// The requester has been handed the cancellation handle.
    HandlePublished,
    /// The run of the source as written has ended, with its error if it failed.
    RawRunFinished(Option<String>),
    /// The parser has returned, with its diagnostics in order.
    Parsed(Vec<String>),
    /// The instrumented run has ended, with its error if it failed.
    InstrumentedRunFinished(Option<String>),
    /// The event buffer has been read back.
    EventsCollected(Vec<DebugEvent>),
}

/// The mathematical content of a [`SessionEvent`].
pub enum SessionEventView {
    Started,
    HandlePublished,
    RawRunFinished(Option<Seq<char>>),
    Parsed(Seq<Seq<char>>),
    InstrumentedRunFinished(Option<Seq<char>>),
    EventsCollected(Seq<DebugEventView>),
}

/// The content of an optional text.
pub open spec fn optional_text_view(text: Option<String>) -> Option<Seq<char>> {
    match text {
        Some(t) => Some(t@),
        None => None,
    }
}

impl View for SessionEvent {
    type V = SessionEventView;

    open spec fn view(&self) -> SessionEventView {
        match self {
            SessionEvent::Started => SessionEventView::Started,
            SessionEvent::HandlePublished => SessionEventView::HandlePublished,
            SessionEvent::RawRunFinished(error) => SessionEventView::RawRunFinished(
                optional_text_view(*error),
            ),
            SessionEvent::Parsed(diagnostics) => SessionEventView::Parsed(
                texts_view(diagnostics@),
            ),
            SessionEvent::InstrumentedRunFinished(error) => {
                SessionEventView::InstrumentedRunFinished(optional_text_view(*error))
            },
            SessionEvent::EventsCollected(events) => SessionEventView::EventsCollected(
                event_views(events@),
            ),
        }
    }
}

/// What the session asks its driver to do next.
#[derive(Debug, PartialEq, Eq)]
pub enum SessionAction {
    /// Make the interpreter for the first run, and hand the requester the
    /// handle by which it can be stopped, before anything is evaluated.
    PublishHandle,
    /// Run the source as written in that interpreter, within the budget.
    RunRaw { budget_ms: u64 },
    /// Parse the source.
    Parse,
    /// Instrument the parsed program, emit it, and run the emitted text in a
    /// second interpreter that has the reporting hook bound, within the budget.
    RunInstrumented { budget_ms: u64 },
    /// Read back the events that the hook has buffered.
    CollectEvents,
    /// Hand out the outcome: the session is over.
    Finish(EvaluationOutcome),
    /// The event does not belong to the session's phase; nothing changes.
    Unexpected,
}

/// The mathematical content of a [`SessionAction`].
pub enum SessionActionView {
    PublishHandle,
    RunRaw { budget_ms: nat },
    Parse,
    RunInstrumented { budget_ms: nat },
    CollectEvents,
    Finish(EvaluationOutcomeView),
    Unexpected,
}

impl View for SessionAction {
    type V = SessionActionView;

    open spec fn view(&self) -> SessionActionView {
        match self {
            SessionAction::PublishHandle => SessionActionView::PublishHandle,
            SessionAction::RunRaw { budget_ms } => SessionActionView::RunRaw {
                budget_ms: *budget_ms as nat,
            },
            SessionAction::Parse => SessionActionView::Parse,
            SessionAction::RunInstrumented { budget_ms } => SessionActionView::RunInstrumented {
                budget_ms: *budget_ms as nat,
            },
            SessionAction::CollectEvents => SessionActionView::CollectEvents,
            SessionAction::Finish(outcome) => SessionActionView::Finish(outcome@),
            SessionAction::Unexpected => SessionActionView::Unexpected,
        }
    }
}

/// The state of a session: its phase, the diagnostics recorded so far, and
/// the budgets of its two runs.
pub struct SessionView {
    pub phase: SessionPhase,
    pub errors: Seq<Seq<char>>,
    pub raw_run_ms: nat,
    pub instrumented_run_ms: nat,
}

/// The diagnostics of a run: its error, if it failed.
pub open spec fn run_errors(error: Option<Seq<char>>) -> Seq<Seq<char>> {
    match error {
        Some(e) => seq![e],
        None => Seq::empty(),
    }
}

/// Whether a source goes on to be instrumented: the parser gave no
/// diagnostic and the run of the source as written gave no error.
pub open spec fn may_instrument(diagnostics: Seq<Seq<char>>, raw_errors: Seq<Seq<char>>) -> bool {
    diagnostics.len() == 0 && raw_errors.len() == 0
}

/// One step of the protocol: the state after `event`, and what is to be
/// done next. Nothing is run before the cancellation handle is published.
/// Diagnostics are kept in the order parser, run as written,
/// instrumented run. A source that may not be instrumented ends with an
/// empty result.
pub open spec fn session_step(state: SessionView, event: SessionEventView) -> (
    SessionView,
    SessionActionView,
) {
    match (state.phase, event) {
        (SessionPhase::Created, SessionEventView::Started) => (
            SessionView { phase: SessionPhase::Publishing, ..state },
            SessionActionView::PublishHandle,
        ),
        (SessionPhase::Publishing, SessionEventView::HandlePublished) => (
            SessionView { phase: SessionPhase::RawRun, ..state },
            SessionActionView::RunRaw { budget_ms: state.raw_run_ms },
        ),
        (SessionPhase::RawRun, SessionEventView::RawRunFinished(error)) => (
            SessionView { phase: SessionPhase::Parsing, errors: run_errors(error), ..state },
            SessionActionView::Parse,
        ),
        (SessionPhase::Parsing, SessionEventView::Parsed(diagnostics)) => if may_instrument(
            diagnostics,
            state.errors,
        ) {
            (
                SessionView {
                    phase: SessionPhase::InstrumentedRun,
                    errors: Seq::empty(),
                    ..state
                },
                SessionActionView::RunInstrumented { budget_ms: state.instrumented_run_ms },
            )
        } else {
            (
                SessionView { phase: SessionPhase::Finished, errors: Seq::empty(), ..state },
                SessionActionView::Finish(
                    EvaluationOutcomeView {
                        formatted_result: Seq::empty(),
                        errors: diagnostics + state.errors,
                    },
                ),
            )
        },
        (SessionPhase::InstrumentedRun, SessionEventView::InstrumentedRunFinished(error)) => (
            SessionView {
                phase: SessionPhase::Collecting,
                errors: state.errors + run_errors(error),
                ..state
            },
            SessionActionView::CollectEvents,
        ),
        (SessionPhase::Collecting, SessionEventView::EventsCollected(events)) => (
            SessionView { phase: SessionPhase::Finished, errors: Seq::empty(), ..state },
            SessionActionView::Finish(
                EvaluationOutcomeView { formatted_result: report(events), errors: state.errors },
            ),
        ),
        _ => (state, SessionActionView::Unexpected),
    }
}

/// The actions that a session takes on a series of events, one for each event.
pub open spec fn session_actions(state: SessionView, events: Seq<SessionEventView>) -> Seq<
    SessionActionView,
>
    decreases events.len(),
{
    if events.len() == 0 {
        Seq::empty()
    } else {
        let (next, action) = session_step(state, events[0]);
        seq![action] + session_actions(next, events.drop_first())
    }
}

/// A finished session stays finished: whatever is reported to it, it asks
/// for nothing more.
pub proof fn lemma_finished_session_is_over(state: SessionView, events: Seq<SessionEventView>)
    requires
        state.phase == SessionPhase::Finished,
    ensures
        session_actions(state, events).len() == events.len(),
        forall|i: int|
            0 <= i < events.len() ==> session_actions(state, events)[i]
                == SessionActionView::Unexpected,
    decreases events.len(),
{
    if events.len() > 0 {
        lemma_finished_session_is_over(state, events.drop_first());
    }
}

/// A source with a syntax error never reaches the instrumented run: when
/// the parser reports a diagnostic, the session ends at once with an empty
/// result and a list of errors that is not empty, and no later event makes
/// it run anything.
pub proof fn lemma_syntax_error_ends_session(
    state: SessionView,
    diagnostics: Seq<Seq<char>>,
    later: Seq<SessionEventView>,
)
    requires
        state.phase == SessionPhase::Parsing,
        diagnostics.len() > 0,
    ensures
        ({
            let (next, action) = session_step(state, SessionEventView::Parsed(diagnostics));
            &&& action matches SessionActionView::Finish(outcome)
            &&& outcome.formatted_result.len() == 0
            &&& outcome.errors.len() > 0
            &&& forall|i: int|
                0 <= i < later.len() ==> session_actions(next, later)[i]
                    == SessionActionView::Unexpected
        }),
{
    let (next, action) = session_step(state, SessionEventView::Parsed(diagnostics));
    lemma_finished_session_is_over(next, later);
}

/// Whether an action asks for a run of the source.
pub open spec fn is_run(action: SessionActionView) -> bool {
    action is RunRaw || action is RunInstrumented
}

/// Nothing is evaluated before the cancellation handle is published:
/// whatever is reported to a session that has not run anything yet, and in
/// whatever order, an action that asks for a run comes only with or after
/// the report that the handle is published.
pub proof fn lemma_runs_follow_handle(state: SessionView, events: Seq<SessionEventView>, k: int)
    requires
        state.phase == SessionPhase::Created || state.phase == SessionPhase::Publishing,
        0 <= k < events.len(),
        is_run(session_actions(state, events)[k]),
    ensures
        exists|j: int| 0 <= j <= k && events[j] == SessionEventView::HandlePublished,
    decreases events.len(),
{
    lemma_session_actions_len(state, events);
    let (next, action) = session_step(state, events[0]);
    let rest = events.drop_first();
    let all = session_actions(state, events);
    assert(all.drop_first() =~= session_actions(next, rest));
    if events[0] == SessionEventView::HandlePublished {
        assert(events[0] == SessionEventView::HandlePublished);
    } else {
        assert(!is_run(action));
        assert(all[0] == action);
        assert(all[k] == session_actions(next, rest)[k - 1]);
        lemma_runs_follow_handle(next, rest, k - 1);
        let j = choose|j: int| 0 <= j <= k - 1 && rest[j] == SessionEventView::HandlePublished;
        assert(events[j + 1] == rest[j]);
    }
}

/// A session takes one action for each event.
pub proof fn lemma_session_actions_len(state: SessionView, events: Seq<SessionEventView>)
    ensures
        session_actions(state, events).len() == events.len(),
    decreases events.len(),
{
    if events.len() > 0 {
        let (next, action) = session_step(state, events[0]);
        lemma_session_actions_len(next, events.drop_first());
    }
}

/// What a request ends with, given what its runs, the parser and the
/// event buffer gave: a source that may be instrumented ends with the
/// report of its events, any other with an empty result; the diagnostics
/// come in the order parser, run as written, instrumented run.
pub open spec fn outcome_of(
    raw_error: Option<Seq<char>>,
    diagnostics: Seq<Seq<char>>,
    instrumented_error: Option<Seq<char>>,
    events: Seq<DebugEventView>,
) -> EvaluationOutcomeView {
    if may_instrument(diagnostics, run_errors(raw_error)) {
        EvaluationOutcomeView {
            formatted_result: report(events),
            errors: diagnostics + run_errors(raw_error) + run_errors(instrumented_error),
        }
    } else {
        EvaluationOutcomeView {
            formatted_result: Seq::empty(),
            errors: diagnostics + run_errors(raw_error),
        }
    }
}

/// A session that is told, in turn, what it has asked for ends with the
/// outcome of the request: after the parser's answer if the source may not
/// be instrumented, and otherwise after the second run and the reading of
/// the events. The second run is asked for only in the latter case.
pub proof fn lemma_session_outcome(
    state: SessionView,
    raw_error: Option<Seq<char>>,
    diagnostics: Seq<Seq<char>>,
    instrumented_error: Option<Seq<char>>,
    events: Seq<DebugEventView>,
)
    requires
        state.phase == SessionPhase::Created,
    ensures
        ({
            let outcome = outcome_of(raw_error, diagnostics, instrumented_error, events);
            let (started, first) = session_step(state, SessionEventView::Started);
            let (published, next) = session_step(started, SessionEventView::HandlePublished);
            let (ran, second) = session_step(
                published,
                SessionEventView::RawRunFinished(raw_error),
            );
            let (parsed, third) = session_step(ran, SessionEventView::Parsed(diagnostics));
            let (ran_again, fourth) = session_step(
                parsed,
                SessionEventView::InstrumentedRunFinished(instrumented_error),
            );
            let (collected, fifth) = session_step(
                ran_again,
                SessionEventView::EventsCollected(events),
            );
            &&& first == SessionActionView::PublishHandle
            &&& next == SessionActionView::RunRaw { budget_ms: state.raw_run_ms }
            &&& second == SessionActionView::Parse
            &&& if may_instrument(diagnostics, run_errors(raw_error)) {
                &&& third == SessionActionView::RunInstrumented {
                    budget_ms: state.instrumented_run_ms,
                }
                &&& fourth == SessionActionView::CollectEvents
                &&& fifth == SessionActionView::Finish(outcome)
                &&& collected.phase == SessionPhase::Finished
            } else {
                &&& third == SessionActionView::Finish(outcome)
                &&& parsed.phase == SessionPhase::Finished
                &&& fourth == SessionActionView::Unexpected
                &&& fifth == SessionActionView::Unexpected
            }
        }),
{
    let outcome = outcome_of(raw_error, diagnostics, instrumented_error, events);
    if may_instrument(diagnostics, run_errors(raw_error)) {
        assert(outcome.errors =~= Seq::<Seq<char>>::empty() + run_errors(instrumented_error));
    }
}

/// The session of one request.
pub struct Session {
    phase: SessionPhase,
    errors: Vec<String>,
    budgets: Budgets,
}

impl View for Session {
    type V = SessionView;

    closed spec fn view(&self) -> SessionView {
        SessionView {
            phase: self.phase,
            errors: texts_view(self.errors@),
            raw_run_ms: self.budgets.raw_run(),
            instrumented_run_ms: self.budgets.instrumented_run(),
        }
    }
}

impl Session {
    /// A session that has run nothing yet.
    pub fn new(budgets: Budgets) -> (session: Session)
        ensures
            session@ == (SessionView {
                phase: SessionPhase::Created,
                errors: Seq::empty(),
                raw_run_ms: budgets.raw_run(),
                instrumented_run_ms: budgets.instrumented_run(),
            }),
    {
        let session = Session { phase: SessionPhase::Created, errors: Vec::new(), budgets };
        assert(texts_view(session.errors@) =~= Seq::empty());
        session
    }

    /// How far the session has come.
    pub fn phase(&self) -> (phase: SessionPhase)
        ensures
            phase == self@.phase,
    {
        self.phase
    }

    /// Takes the diagnostics out of the session.
    fn take_errors(&mut self) -> (errors: Vec<String>)
        ensures
            texts_view(errors@) == old(self)@.errors,
            final(self)@ == (SessionView { errors: Seq::empty(), ..old(self)@ }),
    {
        let mut errors: Vec<String> = Vec::new();
        core::mem::swap(&mut self.errors, &mut errors);
        assert(texts_view(self.errors@) =~= Seq::empty());
        errors
    }

    /// Records the error of a run, if it failed.
    fn record(&mut self, error: Option<String>)
        ensures
            final(self)@ == (SessionView {
                errors: old(self)@.errors + run_errors(optional_text_view(error)),
                ..old(self)@
            }),
    {
        match error {
            Some(e) => {
                self.errors.push(e);
                assert(texts_view(self.errors@) =~= old(self)@.errors + seq![e@]);
            },
            None => {
                assert(texts_view(self.errors@) =~= old(self)@.errors + Seq::empty());
            },
        }
    }

    /// Takes one step of the protocol: records what `event` reports and
    /// says what is to be done next.
    pub fn step(&mut self, event: SessionEvent) -> (action: SessionAction)
        ensures
            (final(self)@, action@) == session_step(old(self)@, event@),
    {
        match (self.phase, event) {
            (SessionPhase::Created, SessionEvent::Started) => {
                self.phase = SessionPhase::Publishing;
                SessionAction::PublishHandle
            },
            (SessionPhase::Publishing, SessionEvent::HandlePublished) => {
                self.phase = SessionPhase::RawRun;
                SessionAction::RunRaw { budget_ms: self.budgets.raw_run_ms() }
            },
            (SessionPhase::RawRun, SessionEvent::RawRunFinished(error)) => {
                let _ = self.take_errors();
                self.record(error);
                self.phase = SessionPhase::Parsing;
                assert(self@.errors =~= run_errors(optional_text_view(error)));
                SessionAction::Parse
            },
            (SessionPhase::Parsing, SessionEvent::Parsed(diagnostics)) => {
                let mut recorded = self.take_errors();
                if diagnostics.len() == 0 && recorded.len() == 0 {
                    self.phase = SessionPhase::InstrumentedRun;
                    SessionAction::RunInstrumented {
                        budget_ms: self.budgets.instrumented_run_ms(),
                    }
                } else {
                    let mut errors = diagnostics;
                    errors.append(&mut recorded);
                    assert(texts_view(errors@) =~= texts_view(diagnostics@) + old(self)@.errors);
                    self.phase = SessionPhase::Finished;
                    SessionAction::Finish(
                        EvaluationOutcome { formatted_result: String::new(), errors },
                    )
                }
            },
            (SessionPhase::InstrumentedRun, SessionEvent::InstrumentedRunFinished(error)) => {
                self.record(error);
                self.phase = SessionPhase::Collecting;
                SessionAction::CollectEvents
            },
            (SessionPhase::Collecting, SessionEvent::EventsCollected(events)) => {
                let errors = self.take_errors();
                let formatted_result = transform_to_result(events);
                self.phase = SessionPhase::Finished;
                SessionAction::Finish(EvaluationOutcome { formatted_result, errors })
            },
            _ => SessionAction::Unexpected,
        }
    }
}

} // verus!
