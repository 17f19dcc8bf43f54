use xtal::ast::{Expression, ExpressionStatement};
use xtal::budget::Budgets;
use xtal::coordinator::{Coordinator, CoordinatorAction, CoordinatorEvent};
use xtal::event::{line_of, EventBuffer};
use xtal::format::transform_to_result;
use xtal::json::JsonValue;
use xtal::replacer::AstReplacer;
use xtal::session::{EvaluationOutcome, Session, SessionAction, SessionEvent};

/// Instruments the statement and plays the hook's part for the call: the
/// first argument names the line, and `values` are what the payload is
/// taken to evaluate to.
fn run_statement(
    source: &str,
    start: u32,
    expression: Expression,
    values: Vec<JsonValue>,
    buffer: &mut EventBuffer,
) {
    let mut it = ExpressionStatement { start, expression };
    AstReplacer::new(source.to_string()).visit_expression_statement(&mut it);
    match it.expression {
        Expression::Call { callee, arguments, optional } => {
            assert_eq!(*callee, Expression::Identifier { name: "Xtal".to_string() });
            assert!(!optional);
            assert_eq!(arguments.len(), values.len() + 1);
            let line = match &arguments[0] {
                Expression::NumericLiteral { raw } => line_of(&JsonValue::Number(raw.clone())),
                _ => None,
            };
            assert!(buffer.report(line.unwrap(), values));
        },
        unexpected => panic!("not instrumented: {:?}", unexpected),
    }
}

fn text(value: &str) -> JsonValue {
    JsonValue::String(value.to_string())
}

fn string(value: &str) -> Expression {
    Expression::StringLiteral { value: value.to_string() }
}

#[test]
fn numeric_literal_on_line_one_gives_one_event_and_one_line() {
    let mut buffer = EventBuffer::new();
    let five = Expression::NumericLiteral { raw: "5".to_string() };
    run_statement("5;", 0, five, vec![JsonValue::Number("5".to_string())], &mut buffer);
    let events = buffer.into_events();
    assert_eq!(events.len(), 1);
    assert_eq!(events[0].line(), 1);
    assert_eq!(events[0].value(), &JsonValue::Number("5".to_string()));
    assert_eq!(transform_to_result(events), "5\n");
}

#[test]
fn concatenation_on_line_two_keeps_line_one_blank() {
    let mut buffer = EventBuffer::new();
    let sum = Expression::Binary {
        left: Box::new(string("x")),
        operator: "+".to_string(),
        right: Box::new(string("y")),
    };
    run_statement("\n\"x\" + \"y\";", 1, sum, vec![text("xy")], &mut buffer);
    assert_eq!(transform_to_result(buffer.into_events()), "\nxy\n");
}

#[test]
fn console_log_on_line_three_gives_two_events_on_one_line() {
    let mut buffer = EventBuffer::new();
    let log = Expression::Call {
        callee: Box::new(Expression::StaticMember {
            object: Box::new(Expression::Identifier { name: "console".to_string() }),
            property: "log".to_string(),
            optional: false,
        }),
        arguments: vec![string("a"), string("b")],
        optional: false,
    };
    let source = "\n\nconsole.log(\"a\", \"b\")";
    run_statement(source, 2, log, vec![text("a"), text("b")], &mut buffer);
    let events = buffer.into_events();
    assert_eq!(events.len(), 2);
    assert_eq!(events[0].line(), 3);
    assert_eq!(events[1].line(), 3);
    assert_eq!(transform_to_result(events), "\n\na b\n");
}

#[test]
fn syntax_error_gives_errors_and_empty_result() {
    let mut session = Session::new(Budgets::new(2000, 500, 1500).unwrap());
    session.step(SessionEvent::Started);
    session.step(SessionEvent::HandlePublished);
    session.step(SessionEvent::RawRunFinished(Some("Uncaught SyntaxError".to_string())));
    match session.step(SessionEvent::Parsed(vec!["Unexpected token".to_string()])) {
        SessionAction::Finish(outcome) => {
            assert!(!outcome.errors.is_empty());
            assert_eq!(outcome.formatted_result, "");
        },
        unexpected => panic!("the session went on: {:?}", unexpected),
    }
}

#[test]
fn endless_loop_is_ended_after_the_budget() {
    let budgets = Budgets::new(300, 100, 200).unwrap();
    let mut coordinator = Coordinator::new(&budgets);
    assert_eq!(
        coordinator.step(CoordinatorEvent::HandleReceived),
        CoordinatorAction::AwaitResult { budget_ms: 300 }
    );
    assert_eq!(coordinator.step(CoordinatorEvent::BudgetElapsed), CoordinatorAction::Terminate);
    assert_eq!(coordinator.step(CoordinatorEvent::TerminationIssued), CoordinatorAction::Join);

    // the worker's session learns of the termination as the error of its run
    let mut session = Session::new(budgets);
    session.step(SessionEvent::Started);
    session.step(SessionEvent::HandlePublished);
    let terminated = "Uncaught Error: execution terminated".to_string();
    session.step(SessionEvent::RawRunFinished(Some(terminated)));
    let outcome = match session.step(SessionEvent::Parsed(Vec::new())) {
        SessionAction::Finish(outcome) => outcome,
        unexpected => panic!("the session went on: {:?}", unexpected),
    };
    assert_eq!(
        coordinator.step(CoordinatorEvent::WorkerExited(outcome)),
        CoordinatorAction::Deliver(EvaluationOutcome {
            formatted_result: String::new(),
            errors: vec!["Uncaught Error: execution terminated".to_string()],
        })
    );
}
