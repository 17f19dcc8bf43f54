use xtal::session::EvaluationOutcome;
use xtal::tab::{record_outcome, Tab};

fn tab(id: &str, result: &str, errors: &str) -> Tab {
    Tab {
        id: id.to_string(),
        name: format!("name of {}", id),
        content: format!("content of {}", id),
        active: id == "a",
        result: result.to_string(),
        errors: errors.to_string(),
    }
}

fn outcome(result: &str, errors: &[&str]) -> EvaluationOutcome {
    EvaluationOutcome {
        formatted_result: result.to_string(),
        errors: errors.iter().map(|e| e.to_string()).collect(),
    }
}

#[test]
fn outcome_is_written_into_its_record() {
    let mut tabs = vec![tab("a", "old", "old error"), tab("b", "", "")];
    assert!(record_outcome(&mut tabs, "b", outcome("5\n", &[])));
    assert_eq!(tabs, vec![tab("a", "old", "old error"), tab("b", "5\n", "")]);
}

#[test]
fn diagnostics_are_joined_by_line_feeds() {
    let mut tabs = vec![tab("a", "5\n", "")];
    assert!(record_outcome(&mut tabs, "a", outcome("", &["parse", "run"])));
    assert_eq!(tabs, vec![tab("a", "", "parse\nrun")]);
}

#[test]
fn unknown_document_changes_nothing() {
    let mut tabs = vec![tab("a", "1", "e"), tab("b", "2", "")];
    assert!(!record_outcome(&mut tabs, "c", outcome("x", &["y"])));
    assert_eq!(tabs, vec![tab("a", "1", "e"), tab("b", "2", "")]);
    let mut none: Vec<Tab> = Vec::new();
    assert!(!record_outcome(&mut none, "a", outcome("x", &[])));
    assert!(none.is_empty());
}

#[test]
fn only_the_first_record_with_the_id_is_written() {
    let mut tabs = vec![tab("b", "", ""), tab("a", "1", ""), tab("a", "2", "")];
    assert!(record_outcome(&mut tabs, "a", outcome("new", &["e"])));
    assert_eq!(tabs, vec![tab("b", "", ""), tab("a", "new", "e"), tab("a", "2", "")]);
}
