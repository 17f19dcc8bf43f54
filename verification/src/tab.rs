//! The document records that requests write their outcomes into.

use vstd::prelude::*;
use vstd::string::*;
use crate::session::{EvaluationOutcome, EvaluationOutcomeView};
use crate::text::{join, join_texts};

verus! {

/// One document of the editor, with the outcome of its last evaluation.
#[derive(Debug, Clone, PartialEq, Eq)]
pub struct Tab {
    pub id: String,
    pub name: String,
    pub content: String,
    pub active: bool,
    pub result: String,
    pub errors: String,
}

/// The mathematical content of a [`Tab`].
pub struct TabView {
    pub id: Seq<char>,
    pub name: Seq<char>,
    pub content: Seq<char>,
    pub active: bool,
    pub result: Seq<char>,
    pub errors: Seq<char>,
}

impl View for Tab {
    type V = TabView;

    open spec fn view(&self) -> TabView {
        TabView {
            id: self.id@,
            name: self.name@,
            content: self.content@,
            active: self.active,
            result: self.result@,
            errors: self.errors@,
        }
    }
}

/// The contents of a list of records.
pub open spec fn tab_views(tabs: Seq<Tab>) -> Seq<TabView> {
    Seq::new(tabs.len(), |i: int| tabs[i]@)
}

/// The index of the first record with the given id, or the number of
/// records if there is none.
pub open spec fn first_with_id(tabs: Seq<TabView>, id: Seq<char>) -> int
    decreases tabs.len(),
{
    if tabs.len() == 0 || tabs[0].id == id {
        0
    } else {
        1 + first_with_id(tabs.drop_first(), id)
    }
}

/// A record after an outcome was written into it: the result is the
/// report, the errors are the diagnostics joined by line feeds, and
/// everything else is as before.
pub open spec fn with_outcome(tab: TabView, outcome: EvaluationOutcomeView) -> TabView {
    TabView { result: outcome.formatted_result, errors: join(outcome.errors, "\n"@), ..tab }
}

/// The records after the outcome of the document `id` was written: the
/// first record with that id takes the outcome; if there is none, nothing
/// changes.
pub open spec fn recorded(tabs: Seq<TabView>, id: Seq<char>, outcome: EvaluationOutcomeView) -> Seq<
    TabView,
> {
    let at = first_with_id(tabs, id);
    if at < tabs.len() {
        tabs.update(at, with_outcome(tabs[at], outcome))
    } else {
        tabs
    }
}

/// The first record with the given id is found where no earlier record has it.
pub proof fn lemma_first_with_id(tabs: Seq<TabView>, id: Seq<char>, at: int)
    requires
        0 <= at <= tabs.len(),
        forall|i: int| 0 <= i < at ==> tabs[i].id != id,
        at < tabs.len() ==> tabs[at].id == id,
    ensures
        first_with_id(tabs, id) == at,
    decreases at,
{
    if at > 0 {
        let rest = tabs.drop_first();
        assert forall|i: int| 0 <= i < at - 1 implies rest[i].id != id by {
            assert(rest[i] == tabs[i + 1]);
        }
        lemma_first_with_id(rest, id, at - 1);
    }
}

/// Writes the outcome of a request into the record of its document, and
/// says whether there was such a record. A request for a document that is
/// not among the records changes nothing.
pub fn record_outcome(tabs: &mut Vec<Tab>, tab_id: &str, outcome: EvaluationOutcome) -> (found:
    bool)
    ensures
        tab_views(final(tabs)@) == recorded(tab_views(old(tabs)@), tab_id@, outcome@),
        found == (first_with_id(tab_views(old(tabs)@), tab_id@) < old(tabs)@.len()),
{
    let id = String::from_str(tab_id);
    let mut at: usize = 0;
    while at < tabs.len() && !(tabs[at].id == id)
        invariant
            at <= tabs.len(),
            *tabs == *old(tabs),
            id@ == tab_id@,
            forall|i: int| 0 <= i < at ==> tab_views(tabs@)[i].id != id@,
        decreases tabs.len() - at,
    {
        at = at + 1;
    }
    proof {
        lemma_first_with_id(tab_views(tabs@), id@, at as int);
    }
    if at < tabs.len() {
        let errors = join_texts(&outcome.errors, "\n");
        let tab = &mut tabs[at];
        tab.result = outcome.formatted_result;
        tab.errors = errors;
        assert(tab_views(tabs@) =~= recorded(tab_views(old(tabs)@), tab_id@, outcome@));
        true
    } else {
        false
    }
}

} // verus!
