//! The observations that an instrumented run hands back.

use vstd::prelude::*;
use vstd::string::*;
use crate::json::{entry_views, json_views, JsonValue, JsonView};
use crate::text::{
    decimal, digits_value, is_numeral, lemma_decimal_is_numeral, lemma_numeral_is_decimal,
    parse_decimal,
};

verus! {

/// One observation of an instrumented run: a value and the source line of
/// the statement that produced it. The line is at least 1.
#[derive(Debug, PartialEq, Eq)]
pub struct DebugEvent {
    line: u64,
    value: JsonValue,
}

/// The mathematical content of a [`DebugEvent`].
pub struct DebugEventView {
    pub line: nat,
    pub value: JsonView,
}

impl View for DebugEvent {
    type V = DebugEventView;

    closed spec fn view(&self) -> DebugEventView {
        DebugEventView { line: self.line as nat, value: self.value@ }
    }
}

impl DebugEvent {
    #[verifier::type_invariant]
    spec fn line_is_positive(self) -> bool {
        self.line >= 1
    }

    /// An event for `line`, or `None` if `line` is 0: lines are counted from 1.
    pub fn new(line: u64, value: JsonValue) -> (event: Option<DebugEvent>)
        ensures
            line == 0 <==> event is None,
            event matches Some(e) ==> e@ == (DebugEventView { line: line as nat, value: value@ }),
    {
        if line == 0 {
            None
        } else {
            Some(DebugEvent { line, value })
        }
    }

    /// The source line of the statement that reported the value.
    pub fn line(&self) -> (line: u64)
        ensures
            line == self@.line,
            line >= 1,
    {
        proof {
            use_type_invariant(self);
        }
        self.line
    }

    /// The reported value.
    pub fn value(&self) -> (value: &JsonValue)
        ensures
            value@ == self@.value,
    {
        &self.value
    }

    /// Takes the event out of its place, leaving an event on the same line
    /// whose value is null.
    pub fn take(&mut self) -> (event: DebugEvent)
        ensures
            event@ == old(self)@,
            final(self)@ == (DebugEventView { line: old(self)@.line, value: JsonView::Null }),
    {
        proof {
            use_type_invariant(&*self);
        }
        let mut value = JsonValue::Null;
        core::mem::swap(&mut self.value, &mut value);
        DebugEvent { line: self.line, value }
    }
}

/// The contents of a list of events.
pub open spec fn event_views(events: Seq<DebugEvent>) -> Seq<DebugEventView> {
    Seq::new(events.len(), |i: int| events[i]@)
}

/// What one call of the reporting hook adds to the event buffer: one
/// event for each value that it was handed, all on the line of the call.
pub open spec fn reported(line: nat, values: Seq<JsonView>) -> Seq<DebugEventView> {
    Seq::new(values.len(), |i: int| DebugEventView { line, value: values[i] })
}

/// The buffer that the reporting hook writes into: the events of one
/// instrumented run, in the order in which they were reported. Events are
/// only ever added at the end.
pub struct EventBuffer {
    events: Vec<DebugEvent>,
}

impl View for EventBuffer {
    type V = Seq<DebugEventView>;

    closed spec fn view(&self) -> Seq<DebugEventView> {
        event_views(self.events@)
    }
}

impl EventBuffer {
    /// An empty buffer, for a run that is about to start.
    pub fn new() -> (buffer: EventBuffer)
        ensures
            buffer@ == Seq::<DebugEventView>::empty(),
    {
        let buffer = EventBuffer { events: Vec::new() };
        assert(event_views(buffer.events@) =~= Seq::empty());
        buffer
    }

    /// The number of events in the buffer.
    pub fn len(&self) -> (len: usize)
        ensures
            len == self@.len(),
    {
        self.events.len()
    }

    /// The hook's part: appends one event for each of `values`, in order,
    /// all on `line`. A call with line 0 names no line of the source, and
    /// adds nothing; the result says whether the call was taken.
    pub fn report(&mut self, line: u64, values: Vec<JsonValue>) -> (taken: bool)
        ensures
            taken == (line >= 1),
            final(self)@ == if taken {
                old(self)@ + reported(line as nat, json_views(values@))
            } else {
                old(self)@
            },
    {
        if line == 0 {
            return false;
        }
        let ghost all = reported(line as nat, json_views(values@));
        let mut values = values;
        let mut i: usize = 0;
        assert(old(self)@ + all.take(0) =~= old(self)@);
        while i < values.len()
            invariant
                line >= 1,
                i <= values.len(),
                values.len() == all.len(),
                forall|j: int|
                    i <= j < values.len() ==> all[j] == (DebugEventView {
                        line: line as nat,
                        value: values@[j]@,
                    }),
                self@ == old(self)@ + all.take(i as int),
            decreases values.len() - i,
        {
            let mut value = JsonValue::Null;
            let ghost before = values@;
            core::mem::swap(&mut values[i], &mut value);
            assert(forall|j: int| 0 <= j < values.len() && j != i ==> values@[j] == before[j]);
            let ghost events_before = self@;
            match DebugEvent::new(line, value) {
                Some(event) => {
                    self.events.push(event);
                    assert(self@ =~= events_before.push(all[i as int]));
                    assert(all.take(i + 1) =~= all.take(i as int).push(all[i as int]));
                    assert(self@ =~= old(self)@ + all.take(i + 1));
                },
                None => {},
            }
            i = i + 1;
        }
        assert(all.take(i as int) =~= all);
        true
    }

    /// Hands out the events, in the order in which they were reported.
    pub fn into_events(self) -> (events: Vec<DebugEvent>)
        ensures
            event_views(events@) == self@,
    {
        self.events
    }
}

/// The key under which an entry of the event buffer holds its line.
pub const LINE_KEY: &'static str = "line";

/// The key under which an entry of the event buffer holds its value.
pub const VALUE_KEY: &'static str = "value";

/// The value of the first pair with the given key, if there is one.
pub open spec fn field(pairs: Seq<(Seq<char>, JsonView)>, key: Seq<char>) -> Option<JsonView>
    decreases pairs.len(),
{
    if pairs.len() == 0 {
        None
    } else if pairs[0].0 == key {
        Some(pairs[0].1)
    } else {
        field(pairs.drop_first(), key)
    }
}

/// Whether a number's text names a line: a decimal numeral of a number
/// from 1 up to the greatest that a line counter holds.
pub open spec fn is_line_numeral(text: Seq<char>) -> bool {
    is_numeral(text) && 1 <= digits_value(text) <= u64::MAX
}

/// The line that a value names: the number of a whole number from 1 on;
/// no other value names a line.
pub open spec fn line_named(value: JsonView) -> Option<nat> {
    match value {
        JsonView::Number(text) => if is_line_numeral(text) {
            Some(digits_value(text))
        } else {
            None
        },
        _ => None,
    }
}

/// The line that the pass writes into a hook call is the line that the
/// hook reads: the decimal numeral of a line names that line.
pub proof fn lemma_numeral_names_its_line(line: nat)
    requires
        1 <= line <= u64::MAX,
    ensures
        line_named(JsonView::Number(decimal(line))) == Some(line),
{
    lemma_decimal_is_numeral(line);
}

/// The event that an entry of the event buffer stands for: an object with
/// a line and with a value. Any other entry stands for no event.
pub open spec fn entry_event(entry: JsonView) -> Option<DebugEventView> {
    match entry {
        JsonView::Object(pairs) => match (field(pairs, LINE_KEY@), field(pairs, VALUE_KEY@)) {
            (Some(line), Some(value)) => match line_named(line) {
                Some(n) => Some(DebugEventView { line: n, value }),
                None => None,
            },
            _ => None,
        },
        _ => None,
    }
}

/// The events that the entries of the event buffer stand for, in order.
pub open spec fn entry_events(entries: Seq<JsonView>) -> Seq<DebugEventView>
    decreases entries.len(),
{
    if entries.len() == 0 {
        Seq::empty()
    } else {
        let before = entry_events(entries.drop_last());
        match entry_event(entries.last()) {
            Some(event) => before.push(event),
            None => before,
        }
    }
}

/// The index of the first pair with the given key, or the number of pairs
/// if there is none.
fn position_of_key(pairs: &Vec<(String, JsonValue)>, key: &str) -> (at: usize)
    ensures
        at <= pairs.len(),
        at < pairs.len() ==> field(entry_views(pairs@), key@) == Some(pairs[at as int].1@),
        at == pairs.len() ==> field(entry_views(pairs@), key@) is None,
{
    let wanted = String::from_str(key);
    let ghost all = entry_views(pairs@);
    let mut at: usize = 0;
    assert(all.skip(0) =~= all);
    while at < pairs.len() && !(pairs[at].0 == wanted)
        invariant
            at <= pairs.len(),
            wanted@ == key@,
            all == entry_views(pairs@),
            field(all, key@) == field(all.skip(at as int), key@),
        decreases pairs.len() - at,
    {
        assert(all.skip(at as int).drop_first() =~= all.skip(at + 1));
        at = at + 1;
    }
    proof {
        if at < pairs.len() {
            assert(all.skip(at as int)[0] == all[at as int]);
        }
    }
    at
}

/// Reads the line that a value names, if it names one.
pub fn line_of(value: &JsonValue) -> (line: Option<u64>)
    ensures
        match line {
            Some(n) => n >= 1 && line_named(value@) == Some(n as nat),
            None => line_named(value@) is None,
        },
{
    match value {
        JsonValue::Number(text) => {
            let parsed = parse_decimal(text.as_str());
            proof {
                match parsed {
                    Some(n) => {
                        lemma_decimal_is_numeral(n as nat);
                    },
                    None => {
                        if is_numeral(text@) && digits_value(text@) <= u64::MAX {
                            lemma_numeral_is_decimal(text@);
                        }
                    },
                }
            }
            match parsed {
                Some(n) => if n >= 1 {
                    Some(n)
                } else {
                    None
                },
                None => None,
            }
        },
        _ => None,
    }
}

/// Reads one entry of the event buffer.
pub fn event_of(entry: JsonValue) -> (event: Option<DebugEvent>)
    ensures
        match event {
            Some(e) => entry_event(entry@) == Some(e@),
            None => entry_event(entry@) is None,
        },
{
    match entry {
        JsonValue::Object(mut pairs) => {
            let line_at = position_of_key(&pairs, LINE_KEY);
            let value_at = position_of_key(&pairs, VALUE_KEY);
            if line_at >= pairs.len() || value_at >= pairs.len() {
                return None;
            }
            match line_of(&pairs[line_at].1) {
                Some(line) => {
                    let pair = pairs.remove(value_at);
                    DebugEvent::new(line, pair.1)
                },
                None => None,
            }
        },
        _ => None,
    }
}

/// Reads the event buffer: the events that its entries stand for, in
/// order; entries that stand for no event are passed over.
pub fn events_of(entries: Vec<JsonValue>) -> (events: Vec<DebugEvent>)
    ensures
        event_views(events@) == entry_events(json_views(entries@)),
{
    let ghost all = json_views(entries@);
    let mut entries = entries;
    let mut events: Vec<DebugEvent> = Vec::new();
    let mut i: usize = 0;
    assert(event_views(events@) =~= entry_events(all.take(0)));
    while i < entries.len()
        invariant
            i <= entries.len(),
            entries.len() == all.len(),
            forall|j: int| i <= j < entries.len() ==> entries@[j]@ == all[j],
            event_views(events@) == entry_events(all.take(i as int)),
        decreases entries.len() - i,
    {
        let mut entry = JsonValue::Null;
        let ghost before = entries@;
        core::mem::swap(&mut entries[i], &mut entry);
        assert(forall|j: int| 0 <= j < entries.len() && j != i ==> entries@[j] == before[j]);
        proof {
            assert(all.take(i + 1).drop_last() =~= all.take(i as int));
            assert(all.take(i + 1).last() == all[i as int]);
        }
        match event_of(entry) {
            Some(event) => {
                events.push(event);
                assert(event_views(events@) =~= entry_events(all.take(i + 1)));
            },
            None => {},
        }
        i = i + 1;
    }
    assert(all.take(i as int) =~= all);
    events
}

} // verus!
