//! Laying out reported values line by line beside the source.

use vstd::prelude::*;
use vstd::string::*;
use crate::event::{event_views, reported, DebugEvent, DebugEventView};
use crate::json::{render, render_members, value_to_string, JsonView};
use crate::text::{join, lemma_join_push};

verus! {

/// The texts of the values reported on `line`, in the order of the events.
pub open spec fn values_on_line(events: Seq<DebugEventView>, line: nat) -> Seq<Seq<char>>
    decreases events.len(),
{
    if events.len() == 0 {
        Seq::empty()
    } else {
        let before = values_on_line(events.drop_last(), line);
        if events.last().line == line {
            before.push(render(events.last().value))
        } else {
            before
        }
    }
}

/// The text of one line of the report: the values reported on that line,
/// separated by single spaces; empty if nothing was reported there.
pub open spec fn line_text(events: Seq<DebugEventView>, line: nat) -> Seq<char> {
    join(values_on_line(events, line), " "@)
}

/// The highest line on which anything was reported; 0 if there is no event.
pub open spec fn last_line(events: Seq<DebugEventView>) -> nat
    decreases events.len(),
{
    if events.len() == 0 {
        0
    } else {
        let before = last_line(events.drop_last());
        if events.last().line > before {
            events.last().line
        } else {
            before
        }
    }
}

/// The report for the lines 1 to `upto`: the text of each line, each followed
/// by a line feed.
pub open spec fn report_through(events: Seq<DebugEventView>, upto: nat) -> Seq<char>
    decreases upto,
{
    if upto == 0 {
        Seq::empty()
    } else {
        report_through(events, (upto - 1) as nat) + line_text(events, upto) + "\n"@
    }
}

/// The whole report: one line of text for each source line up to the last
/// one on which anything was reported.
pub open spec fn report(events: Seq<DebugEventView>) -> Seq<char> {
    report_through(events, last_line(events))
}

/// Whether the events come in ascending order of their lines.
pub open spec fn ordered_by_line(events: Seq<DebugEventView>) -> bool {
    forall|i: int, j: int| 0 <= i <= j < events.len() ==> events[i].line <= events[j].line
}

/// The values on a line of two lists, one after the other.
pub proof fn lemma_values_on_line_add(a: Seq<DebugEventView>, b: Seq<DebugEventView>, line: nat)
    ensures
        values_on_line(a + b, line) == values_on_line(a, line) + values_on_line(b, line),
    decreases b.len(),
{
    if b.len() == 0 {
        assert(a + b =~= a);
        assert(values_on_line(a, line) + values_on_line(b, line) =~= values_on_line(a, line));
    } else {
        assert((a + b).drop_last() =~= a + b.drop_last());
        assert((a + b).last() == b.last());
        lemma_values_on_line_add(a, b.drop_last(), line);
        let before = values_on_line(a, line) + values_on_line(b.drop_last(), line);
        if b.last().line == line {
            assert(before.push(render(b.last().value)) =~= values_on_line(a, line)
                + values_on_line(b.drop_last(), line).push(render(b.last().value)));
        }
    }
}

/// A line on which no event lies has no values.
pub proof fn lemma_values_on_line_none(events: Seq<DebugEventView>, line: nat)
    requires
        forall|i: int| 0 <= i < events.len() ==> events[i].line != line,
    ensures
        values_on_line(events, line) == Seq::<Seq<char>>::empty(),
    decreases events.len(),
{
    if events.len() > 0 {
        let shorter = events.drop_last();
        assert forall|i: int| 0 <= i < shorter.len() implies shorter[i].line != line by {
            assert(shorter[i] == events[i]);
        }
        lemma_values_on_line_none(shorter, line);
    }
}

/// The last line bounds the line of every event, and some event lies on it.
pub proof fn lemma_last_line(events: Seq<DebugEventView>)
    ensures
        forall|i: int| 0 <= i < events.len() ==> events[i].line <= last_line(events),
        events.len() > 0 ==> exists|i: int|
            0 <= i < events.len() && events[i].line == last_line(events),
    decreases events.len(),
{
    if events.len() > 0 {
        let shorter = events.drop_last();
        lemma_last_line(shorter);
        assert forall|i: int| 0 <= i < events.len() implies events[i].line <= last_line(events) by {
            if i < shorter.len() {
                assert(shorter[i] == events[i]);
            }
        }
        if events.last().line > last_line(shorter) || shorter.len() == 0 {
            assert(events[events.len() - 1].line == last_line(events));
        } else {
            let i = choose|i: int| 0 <= i < shorter.len() && shorter[i].line == last_line(shorter);
            assert(events[i] == shorter[i]);
        }
    }
}

/// The last line of two lists, one after the other.
pub proof fn lemma_last_line_add(a: Seq<DebugEventView>, b: Seq<DebugEventView>)
    ensures
        last_line(a + b) == if last_line(a) >= last_line(b) {
            last_line(a)
        } else {
            last_line(b)
        },
    decreases b.len(),
{
    if b.len() == 0 {
        assert(a + b =~= a);
    } else {
        assert((a + b).drop_last() =~= a + b.drop_last());
        assert((a + b).last() == b.last());
        lemma_last_line_add(a, b.drop_last());
    }
}

/// Two lists with the same values on every line give the same report for
/// the same lines.
pub proof fn lemma_report_through_same(
    a: Seq<DebugEventView>,
    b: Seq<DebugEventView>,
    upto: nat,
)
    requires
        forall|line: nat| values_on_line(a, line) == values_on_line(b, line),
    ensures
        report_through(a, upto) == report_through(b, upto),
    decreases upto,
{
    if upto > 0 {
        lemma_report_through_same(a, b, (upto - 1) as nat);
        assert(values_on_line(a, upto) == values_on_line(b, upto));
    }
}

/// Whether two lists of events report the same values, in the same order, on
/// every line, and reach the same last line.
pub open spec fn same_lines(a: Seq<DebugEventView>, b: Seq<DebugEventView>) -> bool {
    &&& last_line(a) == last_line(b)
    &&& forall|line: nat| values_on_line(a, line) == values_on_line(b, line)
}

/// Every line with a value lies between 1 and the last line: no event lies
/// on a later line, and the report covers no line after the last event's.
pub proof fn lemma_lines_in_range(events: Seq<DebugEventView>, line: nat)
    requires
        line > last_line(events),
    ensures
        values_on_line(events, line) == Seq::<Seq<char>>::empty(),
{
    lemma_last_line(events);
    lemma_values_on_line_none(events, line);
}

/// A line on which nothing was reported is blank in the report.
pub proof fn lemma_blank_line(events: Seq<DebugEventView>, line: nat)
    requires
        forall|i: int| 0 <= i < events.len() ==> events[i].line != line,
    ensures
        line_text(events, line) == Seq::<char>::empty(),
{
    lemma_values_on_line_none(events, line);
}

/// The number of line feeds in a text.
pub open spec fn line_feeds(text: Seq<char>) -> nat
    decreases text.len(),
{
    if text.len() == 0 {
        0
    } else {
        let last: nat = if text.last() == '\n' {
            1
        } else {
            0
        };
        line_feeds(text.drop_last()) + last
    }
}

/// Whether no value among the events holds a line feed in its text.
pub open spec fn single_line_values(events: Seq<DebugEventView>) -> bool {
    forall|i: int| 0 <= i < events.len() ==> line_feeds(render(#[trigger] events[i].value)) == 0
}

/// The line feeds of two texts, one after the other.
pub proof fn lemma_line_feeds_add(a: Seq<char>, b: Seq<char>)
    ensures
        line_feeds(a + b) == line_feeds(a) + line_feeds(b),
    decreases b.len(),
{
    if b.len() == 0 {
        assert(a + b =~= a);
    } else {
        assert((a + b).drop_last() =~= a + b.drop_last());
        assert((a + b).last() == b.last());
        lemma_line_feeds_add(a, b.drop_last());
    }
}

/// Pieces without line feeds, joined by a separator without one, give a
/// text without line feeds.
proof fn lemma_join_without_line_feeds(parts: Seq<Seq<char>>, separator: Seq<char>)
    requires
        line_feeds(separator) == 0,
        forall|i: int| 0 <= i < parts.len() ==> line_feeds(#[trigger] parts[i]) == 0,
    ensures
        line_feeds(join(parts, separator)) == 0,
    decreases parts.len(),
{
    if parts.len() > 1 {
        let shorter = parts.drop_last();
        assert forall|i: int| 0 <= i < shorter.len() implies line_feeds(#[trigger] shorter[i])
            == 0 by {
            assert(shorter[i] == parts[i]);
        }
        lemma_join_without_line_feeds(shorter, separator);
        lemma_line_feeds_add(join(shorter, separator), separator);
        lemma_line_feeds_add(join(shorter, separator) + separator, parts.last());
    }
}

/// Where no value holds a line feed, neither does any value on a line.
proof fn lemma_values_without_line_feeds(events: Seq<DebugEventView>, line: nat)
    requires
        single_line_values(events),
    ensures
        forall|i: int|
            0 <= i < values_on_line(events, line).len() ==> line_feeds(
                #[trigger] values_on_line(events, line)[i],
            ) == 0,
    decreases events.len(),
{
    if events.len() > 0 {
        let shorter = events.drop_last();
        assert forall|i: int| 0 <= i < shorter.len() implies line_feeds(
            render(#[trigger] shorter[i].value),
        ) == 0 by {
            assert(shorter[i] == events[i]);
        }
        lemma_values_without_line_feeds(shorter, line);
        assert(line_feeds(render(events[events.len() - 1].value)) == 0);
        let before = values_on_line(shorter, line);
        let all = values_on_line(events, line);
        assert forall|i: int| 0 <= i < all.len() implies line_feeds(#[trigger] all[i]) == 0 by {
            if i < before.len() {
                assert(all[i] == before[i]);
            }
        }
    }
}

/// Where no value holds a line feed, the report for the lines 1 to `upto`
/// has exactly `upto` line feeds: one line of text for each source line.
pub proof fn lemma_report_through_line_feeds(events: Seq<DebugEventView>, upto: nat)
    requires
        single_line_values(events),
    ensures
        line_feeds(report_through(events, upto)) == upto,
    decreases upto,
{
    if upto > 0 {
        reveal_strlit(" ");
        reveal_strlit("\n");
        let before = report_through(events, (upto - 1) as nat);
        lemma_report_through_line_feeds(events, (upto - 1) as nat);
        lemma_values_without_line_feeds(events, upto);
        assert(line_feeds(" "@) == 0) by {
            assert(line_feeds(" "@.drop_last()) == 0);
        }
        assert(line_feeds("\n"@) == 1) by {
            assert(line_feeds("\n"@.drop_last()) == 0);
        }
        lemma_join_without_line_feeds(values_on_line(events, upto), " "@);
        lemma_line_feeds_add(before, line_text(events, upto));
        lemma_line_feeds_add(before + line_text(events, upto), "\n"@);
    }
}

/// The report keeps step with the source: where no value holds a line
/// feed, it has as many lines as the last line on which anything was
/// reported.
pub proof fn lemma_report_line_count(events: Seq<DebugEventView>)
    requires
        single_line_values(events),
    ensures
        line_feeds(report(events)) == last_line(events),
{
    lemma_report_through_line_feeds(events, last_line(events));
}

/// The index of the first line feed in a text, or the length of the text
/// if it has none.
pub open spec fn first_line_feed(text: Seq<char>) -> nat
    decreases text.len(),
{
    if text.len() == 0 || text[0] == '\n' {
        0
    } else {
        1 + first_line_feed(text.drop_first())
    }
}

/// Line `k` of a text, counted from 1, without its line feed; empty if the
/// text has fewer lines.
pub open spec fn nth_line(text: Seq<char>, k: nat) -> Seq<char>
    decreases k,
{
    let feed = first_line_feed(text) as int;
    if k <= 1 {
        text.take(feed)
    } else if feed >= text.len() {
        Seq::empty()
    } else {
        nth_line(text.skip(feed + 1), (k - 1) as nat)
    }
}

/// The report for the lines after `from` up to `upto`.
pub open spec fn report_between(events: Seq<DebugEventView>, from: nat, upto: nat) -> Seq<char>
    decreases upto - from,
{
    if from >= upto {
        Seq::empty()
    } else {
        line_text(events, from + 1) + "\n"@ + report_between(events, from + 1, upto)
    }
}

/// A text without line feeds has no line feed at any place.
proof fn lemma_no_line_feed_anywhere(text: Seq<char>, i: int)
    requires
        line_feeds(text) == 0,
        0 <= i < text.len(),
    ensures
        text[i] != '\n',
    decreases text.len(),
{
    if i < text.len() - 1 {
        lemma_no_line_feed_anywhere(text.drop_last(), i);
    }
}

/// In a text that starts with a line without line feeds, followed by a
/// line feed, the first line feed is the one that ends that line.
proof fn lemma_first_line_feed_after(line: Seq<char>, rest: Seq<char>)
    requires
        line_feeds(line) == 0,
    ensures
        first_line_feed(line + "\n"@ + rest) == line.len(),
    decreases line.len(),
{
    reveal_strlit("\n");
    let text = line + "\n"@ + rest;
    if line.len() == 0 {
        assert(text[0] == '\n');
    } else {
        lemma_no_line_feed_anywhere(line, 0);
        assert(text[0] == line[0]);
        let shorter = line.drop_first();
        assert(line =~= seq![line[0]] + shorter);
        lemma_line_feeds_add(seq![line[0]], shorter);
        assert(text.drop_first() =~= shorter + "\n"@ + rest);
        lemma_first_line_feed_after(shorter, rest);
    }
}

/// The report for a range of lines ends with the text of its last line.
proof fn lemma_report_between_last(events: Seq<DebugEventView>, from: nat, upto: nat)
    requires
        from < upto,
    ensures
        report_between(events, from, upto) == report_between(events, from, (upto - 1) as nat)
            + line_text(events, upto) + "\n"@,
    decreases upto - from,
{
    if from + 1 == upto {
        assert(report_between(events, upto, upto) =~= Seq::empty());
        assert(report_between(events, from, from) =~= Seq::empty());
        assert(report_between(events, from, upto) =~= report_between(events, from, from)
            + line_text(events, upto) + "\n"@);
    } else {
        lemma_report_between_last(events, from + 1, upto);
        assert(report_between(events, from, upto) =~= report_between(
            events,
            from,
            (upto - 1) as nat,
        ) + line_text(events, upto) + "\n"@);
    }
}

/// The report for the lines 1 to `upto` is the report for the lines after
/// 0 up to `upto`.
proof fn lemma_report_through_between(events: Seq<DebugEventView>, upto: nat)
    ensures
        report_through(events, upto) == report_between(events, 0, upto),
    decreases upto,
{
    if upto > 0 {
        lemma_report_through_between(events, (upto - 1) as nat);
        lemma_report_between_last(events, 0, upto);
    }
}

/// Line `k` of the report for a range of lines is the text of the `k`-th
/// line of the range.
proof fn lemma_nth_line_between(events: Seq<DebugEventView>, from: nat, upto: nat, k: nat)
    requires
        single_line_values(events),
        1 <= k <= upto - from,
    ensures
        nth_line(report_between(events, from, upto), k) == line_text(events, from + k),
    decreases k,
{
    reveal_strlit(" ");
    let line = line_text(events, from + 1);
    let rest = report_between(events, from + 1, upto);
    let text = report_between(events, from, upto);
    assert(line_feeds(" "@) == 0) by {
        assert(line_feeds(" "@.drop_last()) == 0);
    }
    lemma_values_without_line_feeds(events, from + 1);
    lemma_join_without_line_feeds(values_on_line(events, from + 1), " "@);
    lemma_first_line_feed_after(line, rest);
    assert(text == line + "\n"@ + rest);
    if k == 1 {
        assert(text.take(line.len() as int) =~= line);
    } else {
        reveal_strlit("\n");
        assert(text.skip(line.len() as int + 1) =~= rest);
        lemma_nth_line_between(events, from + 1, upto, (k - 1) as nat);
    }
}

/// The report lines up with the source: where no value holds a line feed,
/// line `k` of the report is the text of source line `k`, which holds the
/// values reported on that line and is blank if there are none, for every
/// line up to the last on which anything was reported.
pub proof fn lemma_report_lines_up(events: Seq<DebugEventView>, k: nat)
    requires
        single_line_values(events),
        1 <= k <= last_line(events),
    ensures
        nth_line(report(events), k) == line_text(events, k),
{
    lemma_report_through_between(events, last_line(events));
    lemma_nth_line_between(events, 0, last_line(events), k);
}

/// A row of `n` line feeds: `n` blank lines.
pub open spec fn blank_lines(n: nat) -> Seq<char>
    decreases n,
{
    if n == 0 {
        Seq::empty()
    } else {
        blank_lines((n - 1) as nat) + "\n"@
    }
}

/// The events of one call of the hook lie on the line of the call, all of
/// them, in the order of the values.
proof fn lemma_values_of_one_call(line: nat, values: Seq<JsonView>, k: nat)
    ensures
        values_on_line(reported(line, values), k) == if k == line {
            render_members(values)
        } else {
            Seq::empty()
        },
        values.len() > 0 ==> last_line(reported(line, values)) == line,
    decreases values.len(),
{
    let events = reported(line, values);
    if values.len() == 0 {
        assert(render_members(values) =~= Seq::empty());
    } else {
        let shorter = values.drop_last();
        assert(events.drop_last() =~= reported(line, shorter));
        assert(events.last() == (DebugEventView { line, value: values.last() }));
        lemma_values_of_one_call(line, shorter, k);
        if k == line {
            assert(render_members(shorter).push(render(values.last())) =~= render_members(
                values,
            ));
        }
        if shorter.len() == 0 {
            assert(last_line(reported(line, shorter)) == 0);
        }
    }
}

/// Where nothing was reported on the lines 1 to `upto`, the report for
/// them is `upto` blank lines.
proof fn lemma_report_through_blank(events: Seq<DebugEventView>, upto: nat)
    requires
        forall|k: nat| 1 <= k <= upto ==> values_on_line(events, k).len() == 0,
    ensures
        report_through(events, upto) == blank_lines(upto),
    decreases upto,
{
    if upto > 0 {
        lemma_report_through_blank(events, (upto - 1) as nat);
        assert(values_on_line(events, upto).len() == 0);
        assert(report_through(events, upto) =~= blank_lines(upto));
    }
}

/// The report of one call of the hook: a call on line `line` that was
/// handed one value or more gives `line - 1` blank lines and then one line
/// with the texts of the values, in order and separated by single spaces.
/// So a statement on line 1 that reports `5` gives `5` and a line feed,
/// and one on line 3 that reports `a` and `b` gives two blank lines and
/// `a b`.
pub proof fn lemma_report_of_one_call(line: nat, values: Seq<JsonView>)
    requires
        line >= 1,
        values.len() >= 1,
    ensures
        report(reported(line, values)) == blank_lines((line - 1) as nat) + join(
            render_members(values),
            " "@,
        ) + "\n"@,
{
    let events = reported(line, values);
    lemma_values_of_one_call(line, values, line);
    assert forall|k: nat| 1 <= k <= line - 1 implies values_on_line(events, k).len() == 0 by {
        lemma_values_of_one_call(line, values, k);
    }
    lemma_report_through_blank(events, (line - 1) as nat);
}

/// Moving an event behind events that lie on other lines keeps the values
/// of every line, and the last line.
proof fn lemma_move_keeps_lines(
    before: Seq<DebugEventView>,
    event: DebugEventView,
    mid: Seq<DebugEventView>,
    after: Seq<DebugEventView>,
)
    requires
        forall|i: int| 0 <= i < mid.len() ==> mid[i].line != event.line,
    ensures
        same_lines(((before + seq![event]) + mid) + after, ((before + mid) + seq![event]) + after),
{
    let one = seq![event];
    let moved = ((before + mid) + one) + after;
    let unmoved = ((before + one) + mid) + after;
    lemma_last_line_add((before + mid) + one, after);
    lemma_last_line_add(before + mid, one);
    lemma_last_line_add(before, mid);
    lemma_last_line_add((before + one) + mid, after);
    lemma_last_line_add(before + one, mid);
    lemma_last_line_add(before, one);
    assert forall|line: nat| values_on_line(unmoved, line) == values_on_line(moved, line) by {
        lemma_values_on_line_add((before + mid) + one, after, line);
        lemma_values_on_line_add(before + mid, one, line);
        lemma_values_on_line_add(before, mid, line);
        lemma_values_on_line_add((before + one) + mid, after, line);
        lemma_values_on_line_add(before + one, mid, line);
        lemma_values_on_line_add(before, one, line);
        if line == event.line {
            lemma_values_on_line_none(mid, line);
        } else {
            lemma_values_on_line_none(one, line);
        }
        assert(values_on_line(before, line) + values_on_line(mid, line) + values_on_line(one, line)
            + values_on_line(after, line) =~= values_on_line(before, line) + values_on_line(
            one,
            line,
        ) + values_on_line(mid, line) + values_on_line(after, line));
    }
}

/// Lists with the same lines, put one after the other, have the same lines.
proof fn lemma_same_lines_add(
    a: Seq<DebugEventView>,
    b: Seq<DebugEventView>,
    c: Seq<DebugEventView>,
    d: Seq<DebugEventView>,
)
    requires
        same_lines(a, b),
        same_lines(c, d),
    ensures
        same_lines(a + c, b + d),
{
    lemma_last_line_add(a, c);
    lemma_last_line_add(b, d);
    assert forall|line: nat| values_on_line(a + c, line) == values_on_line(b + d, line) by {
        lemma_values_on_line_add(a, c, line);
        lemma_values_on_line_add(b, d, line);
        assert(values_on_line(a, line) == values_on_line(b, line));
        assert(values_on_line(c, line) == values_on_line(d, line));
    }
}

/// Merges two lists that are ordered by line into one; of events on the
/// same line, those of the first list come first.
fn merge_by_line(first: Vec<DebugEvent>, second: Vec<DebugEvent>) -> (merged: Vec<DebugEvent>)
    requires
        ordered_by_line(event_views(first@)),
        ordered_by_line(event_views(second@)),
    ensures
        ordered_by_line(event_views(merged@)),
        same_lines(event_views(merged@), event_views(first@) + event_views(second@)),
{
    let ghost a = event_views(first@);
    let ghost b = event_views(second@);
    let mut first = first;
    let mut second = second;
    let mut merged: Vec<DebugEvent> = Vec::new();
    let mut i: usize = 0;
    let mut j: usize = 0;
    assert((event_views(merged@) + a.skip(0)) + b.skip(0) =~= a + b);
    while i < first.len() || j < second.len()
        invariant
            ordered_by_line(a),
            ordered_by_line(b),
            first.len() == a.len(),
            second.len() == b.len(),
            i <= first.len(),
            j <= second.len(),
            forall|k: int| i <= k < first.len() ==> first@[k]@ == a[k],
            forall|k: int| j <= k < second.len() ==> second@[k]@ == b[k],
            ordered_by_line(event_views(merged@)),
            forall|k: int|
                0 <= k < merged.len() && i < a.len() ==> event_views(merged@)[k].line
                    <= a[i as int].line,
            forall|k: int|
                0 <= k < merged.len() && j < b.len() ==> event_views(merged@)[k].line
                    <= b[j as int].line,
            same_lines((event_views(merged@) + a.skip(i as int)) + b.skip(j as int), a + b),
        decreases (first.len() - i) + (second.len() - j),
    {
        let ghost so_far = event_views(merged@);
        let from_first = if i >= first.len() {
            false
        } else if j >= second.len() {
            true
        } else {
            first[i].line() <= second[j].line()
        };
        if from_first {
            let ghost before = first@;
            let event = first[i].take();
            assert(forall|k: int| 0 <= k < first.len() && k != i ==> first@[k] == before[k]);
            merged.push(event);
            proof {
                let now = event_views(merged@);
                assert(now =~= so_far.push(a[i as int]));
                assert((now + a.skip(i + 1)) + b.skip(j as int) =~= (so_far + a.skip(i as int))
                    + b.skip(j as int));
                assert forall|x: int, y: int| 0 <= x <= y < now.len() implies now[x].line
                    <= now[y].line by {
                    if y < so_far.len() {
                        assert(now[x] == so_far[x] && now[y] == so_far[y]);
                    } else if x < so_far.len() {
                        assert(now[x] == so_far[x]);
                    }
                }
                assert forall|k: int| 0 <= k < now.len() && i + 1 < a.len() implies now[k].line
                    <= a[i + 1].line by {
                    assert(a[i as int].line <= a[i + 1].line);
                    if k < so_far.len() {
                        assert(now[k] == so_far[k]);
                    }
                }
                assert forall|k: int| 0 <= k < now.len() && j < b.len() implies now[k].line
                    <= b[j as int].line by {
                    if k < so_far.len() {
                        assert(now[k] == so_far[k]);
                    }
                }
            }
            i = i + 1;
        } else {
            let ghost before = second@;
            let event = second[j].take();
            assert(forall|k: int| 0 <= k < second.len() && k != j ==> second@[k] == before[k]);
            merged.push(event);
            proof {
                let now = event_views(merged@);
                let rest_first = a.skip(i as int);
                let rest_second = b.skip(j + 1);
                assert(now =~= so_far.push(b[j as int]));
                assert forall|k: int| 0 <= k < rest_first.len() implies rest_first[k].line
                    != b[j as int].line by {
                    assert(rest_first[k] == a[i + k]);
                    assert(a[i as int].line <= a[i + k].line);
                }
                lemma_move_keeps_lines(so_far, b[j as int], rest_first, rest_second);
                assert(((so_far + seq![b[j as int]]) + rest_first) + rest_second =~= (now
                    + rest_first) + rest_second);
                assert(((so_far + rest_first) + seq![b[j as int]]) + rest_second =~= (so_far
                    + rest_first) + b.skip(j as int));
                assert forall|x: int, y: int| 0 <= x <= y < now.len() implies now[x].line
                    <= now[y].line by {
                    if y < so_far.len() {
                        assert(now[x] == so_far[x] && now[y] == so_far[y]);
                    } else if x < so_far.len() {
                        assert(now[x] == so_far[x]);
                    }
                }
                assert forall|k: int| 0 <= k < now.len() && i < a.len() implies now[k].line
                    <= a[i as int].line by {
                    if k < so_far.len() {
                        assert(now[k] == so_far[k]);
                    }
                }
                assert forall|k: int| 0 <= k < now.len() && j + 1 < b.len() implies now[k].line
                    <= b[j + 1].line by {
                    assert(b[j as int].line <= b[j + 1].line);
                    if k < so_far.len() {
                        assert(now[k] == so_far[k]);
                    }
                }
            }
            j = j + 1;
        }
    }
    assert((event_views(merged@) + a.skip(i as int)) + b.skip(j as int) =~= event_views(merged@));
    merged
}

/// Sorts events by line, keeping the order of events on the same line.
fn sort_by_line(events: Vec<DebugEvent>) -> (sorted: Vec<DebugEvent>)
    ensures
        ordered_by_line(event_views(sorted@)),
        same_lines(event_views(sorted@), event_views(events@)),
    decreases events.len(),
{
    let len = events.len();
    if len <= 1 {
        return events;
    }
    let ghost all = event_views(events@);
    let mut front = events;
    let back = front.split_off(len / 2);
    assert(event_views(front@) + event_views(back@) =~= all);
    let ghost front_given = event_views(front@);
    let ghost back_given = event_views(back@);
    let front = sort_by_line(front);
    let back = sort_by_line(back);
    proof {
        lemma_same_lines_add(event_views(front@), front_given, event_views(back@), back_given);
    }
    merge_by_line(front, back)
}

/// Lays the events out as text: line `k` of the result holds the values that
/// were reported on source line `k`, in the order in which they were
/// reported and separated by single spaces; lines on which nothing was
/// reported are empty; the text ends after the last line on which anything
/// was reported.
pub fn transform_to_result(debug_results: Vec<DebugEvent>) -> (result: String)
    ensures
        result@ == report(event_views(debug_results@)),
{
    let ghost given = event_views(debug_results@);
    let sorted = sort_by_line(debug_results);
    let ghost events = event_views(sorted@);
    let mut result = String::new();
    let mut current_line: u64 = 0;
    let mut i: usize = 0;
    while i < sorted.len()
        invariant
            i <= sorted.len(),
            events == event_views(sorted@),
            ordered_by_line(events),
            current_line == if i == 0 {
                0
            } else {
                events[i - 1].line
            },
            result@ == if 0 < i < sorted.len() && events[i as int].line == current_line {
                report_through(events, (current_line - 1) as nat) + join(
                    values_on_line(events.take(i as int), current_line as nat),
                    " "@,
                )
            } else {
                report_through(events, current_line as nat)
            },
        decreases sorted.len() - i,
    {
        let target_line = sorted[i].line();
        let ghost continued = i > 0 && target_line == current_line;
        let ghost earlier = events.take(i as int);
        let ghost through = events.take(i + 1);
        let ghost later = events.skip(i + 1);
        assert(events[i as int].line == target_line);
        assert(current_line <= target_line) by {
            if i > 0 {
                assert(events[i - 1].line <= events[i as int].line);
            }
        }
        while current_line < target_line - 1
            invariant
                i < sorted.len(),
                events == event_views(sorted@),
                ordered_by_line(events),
                target_line == events[i as int].line,
                target_line >= 1,
                earlier == events.take(i as int),
                continued ==> current_line == target_line,
                !continued ==> current_line < target_line,
                current_line >= if i == 0 {
                    0
                } else {
                    events[i - 1].line
                },
                result@ == if continued {
                    report_through(events, (target_line - 1) as nat) + join(
                        values_on_line(earlier, target_line as nat),
                        " "@,
                    )
                } else {
                    report_through(events, current_line as nat)
                },
            decreases target_line - current_line,
        {
            proof {
                let skipped = (current_line + 1) as nat;
                assert forall|j: int| 0 <= j < events.len() implies events[j].line != skipped by {
                    if j < i {
                        assert(events[j].line <= events[i - 1].line);
                    } else {
                        assert(events[i as int].line <= events[j].line);
                    }
                }
                lemma_values_on_line_none(events, skipped);
            }
            result.append("\n");
            current_line = current_line + 1;
            assert(result@ =~= report_through(events, current_line as nat));
        }
        proof {
            if !continued {
                assert forall|j: int| 0 <= j < earlier.len() implies earlier[j].line
                    != target_line as nat by {
                    assert(earlier[j] == events[j]);
                    assert(events[j].line <= events[i - 1].line);
                }
                lemma_values_on_line_none(earlier, target_line as nat);
            } else {
                assert(earlier.last() == events[i - 1]);
            }
        }
        if current_line == target_line {
            result.append(" ");
        }
        let text = value_to_string(sorted[i].value());
        result.append(text.as_str());
        proof {
            assert(through.drop_last() =~= earlier);
            assert(through.last() == events[i as int]);
            lemma_join_push(values_on_line(earlier, target_line as nat), " "@, text@);
            assert(result@ =~= report_through(events, (target_line - 1) as nat) + join(
                values_on_line(through, target_line as nat),
                " "@,
            ));
        }
        let ends_line = if i + 1 < sorted.len() {
            sorted[i + 1].line() != target_line
        } else {
            true
        };
        if ends_line {
            proof {
                assert(events =~= through + later);
                assert forall|j: int| 0 <= j < later.len() implies later[j].line
                    != target_line as nat by {
                    assert(later[j] == events[i + 1 + j]);
                    assert(events[i + 1].line <= events[i + 1 + j].line);
                    assert(events[i as int].line <= events[i + 1].line);
                }
                lemma_values_on_line_none(later, target_line as nat);
                lemma_values_on_line_add(through, later, target_line as nat);
                assert(values_on_line(events, target_line as nat) =~= values_on_line(
                    through,
                    target_line as nat,
                ));
            }
            result.append("\n");
            assert(result@ =~= report_through(events, target_line as nat));
        }
        current_line = target_line;
        i = i + 1;
    }
    proof {
        lemma_last_line(events);
        lemma_report_through_same(events, given, last_line(events));
    }
    result
}

} // verus!
