//! Values reported by an instrumented script, and their rendering as text.

use vstd::prelude::*;
use vstd::string::*;
use crate::text::{join, lemma_join_push};

verus! {

/// A value as it crosses from the interpreter to the host: anything that can
/// be written as JSON.
#[derive(Debug, PartialEq, Eq)]
pub enum JsonValue {
    /// The null value.
    Null,
    /// A boolean.
    Bool(bool),
    /// A number, held by its textual form.
    Number(String),
    /// A string.
    String(String),
    /// An array of values.
    Array(Vec<JsonValue>),
    /// An object: its keys with their values, in insertion order.
    Object(Vec<(String, JsonValue)>),
}

/// The mathematical content of a [`JsonValue`].
pub enum JsonView {
    Null,
    Bool(bool),
    Number(Seq<char>),
    String(Seq<char>),
    Array(Seq<JsonView>),
    Object(Seq<(Seq<char>, JsonView)>),
}

/// The content of a value.
pub open spec fn json_view(value: JsonValue) -> JsonView
    decreases value,
{
    match value {
        JsonValue::Null => JsonView::Null,
        JsonValue::Bool(b) => JsonView::Bool(b),
        JsonValue::Number(text) => JsonView::Number(text@),
        JsonValue::String(text) => JsonView::String(text@),
        JsonValue::Array(items) => JsonView::Array(json_views(items@)),
        JsonValue::Object(entries) => JsonView::Object(entry_views(entries@)),
    }
}

/// The contents of the members of an array.
pub open spec fn json_views(items: Seq<JsonValue>) -> Seq<JsonView>
    decreases items,
{
    Seq::new(
        items.len(),
        |i: int|
            if 0 <= i < items.len() {
                json_view(items[i])
            } else {
                JsonView::Null
            },
    )
}

/// The contents of the pairs of an object.
pub open spec fn entry_views(entries: Seq<(String, JsonValue)>) -> Seq<(Seq<char>, JsonView)>
    decreases entries,
{
    Seq::new(
        entries.len(),
        |i: int|
            if 0 <= i < entries.len() {
                (entries[i].0@, json_view(entries[i].1))
            } else {
                (Seq::empty(), JsonView::Null)
            },
    )
}

impl View for JsonValue {
    type V = JsonView;

    open spec fn view(&self) -> JsonView {
        json_view(*self)
    }
}

/// The text of a value: `null`, `true` or `false`, a number's textual form, a
/// string as it is, an array as its members' texts between brackets, an
/// object as its `"key": text` pairs between braces; members and pairs are
/// separated by a comma and a space.
pub open spec fn render(value: JsonView) -> Seq<char>
    decreases value,
{
    match value {
        JsonView::Null => "null"@,
        JsonView::Bool(b) => if b {
            "true"@
        } else {
            "false"@
        },
        JsonView::Number(text) => text,
        JsonView::String(text) => text,
        JsonView::Array(items) => "["@ + join(render_members(items), ", "@) + "]"@,
        JsonView::Object(entries) => "{"@ + join(render_entries(entries), ", "@) + "}"@,
    }
}

/// The texts of the members of an array.
pub open spec fn render_members(items: Seq<JsonView>) -> Seq<Seq<char>>
    decreases items,
{
    Seq::new(
        items.len(),
        |i: int|
            if 0 <= i < items.len() {
                render(items[i])
            } else {
                Seq::empty()
            },
    )
}

/// The texts of the pairs of an object.
pub open spec fn render_entries(entries: Seq<(Seq<char>, JsonView)>) -> Seq<Seq<char>>
    decreases entries,
{
    Seq::new(
        entries.len(),
        |i: int|
            if 0 <= i < entries.len() {
                render_entry(entries[i].0, render(entries[i].1))
            } else {
                Seq::empty()
            },
    )
}

/// The text of one pair of an object, given the text of its value: the key
/// between double quotes, a colon, a space and the value.
pub open spec fn render_entry(key: Seq<char>, value: Seq<char>) -> Seq<char> {
    "\""@ + key + "\": "@ + value
}

/// Renders a value as text.
pub fn value_to_string(value: &JsonValue) -> (text: String)
    ensures
        text@ == render(value@),
    decreases value,
{
    match value {
        JsonValue::Null => String::from_str("null"),
        JsonValue::Bool(b) => if *b {
            String::from_str("true")
        } else {
            String::from_str("false")
        },
        JsonValue::Number(number) => number.clone(),
        JsonValue::String(string) => string.clone(),
        JsonValue::Array(items) => {
            let ghost view = value@->Array_0;
            let ghost pieces = render_members(view);
            let mut text = String::from_str("[");
            let mut i: usize = 0;
            while i < items.len()
                invariant
                    i <= items.len(),
                    value == JsonValue::Array(*items),
                    view == value@->Array_0,
                    view.len() == items.len(),
                    pieces.len() == view.len(),
                    forall|j: int| 0 <= j < view.len() ==> pieces[j] == render(#[trigger] view[j]),
                    text@ == "["@ + join(pieces.take(i as int), ", "@),
                decreases items.len() - i,
            {
                proof {
                    assert(pieces.take(i + 1) =~= pieces.take(i as int).push(pieces[i as int]));
                    lemma_join_push(pieces.take(i as int), ", "@, pieces[i as int]);
                }
                if i > 0 {
                    text.append(", ");
                }
                let piece = value_to_string(&items[i]);
                assert(piece@ == pieces[i as int]) by {
                    assert(view[i as int] == items[i as int]@);
                }
                text.append(piece.as_str());
                assert(text@ =~= "["@ + join(pieces.take(i + 1), ", "@));
                i = i + 1;
            }
            assert(pieces.take(i as int) =~= pieces);
            text.append("]");
            text
        },
        JsonValue::Object(entries) => {
            let ghost view = value@->Object_0;
            let ghost pieces = render_entries(view);
            let mut text = String::from_str("{");
            let mut i: usize = 0;
            while i < entries.len()
                invariant
                    i <= entries.len(),
                    value == JsonValue::Object(*entries),
                    view == value@->Object_0,
                    view.len() == entries.len(),
                    pieces.len() == view.len(),
                    forall|j: int|
                        0 <= j < view.len() ==> pieces[j] == render_entry(
                            (#[trigger] view[j]).0,
                            render(view[j].1),
                        ),
                    text@ == "{"@ + join(pieces.take(i as int), ", "@),
                decreases entries.len() - i,
            {
                proof {
                    assert(pieces.take(i + 1) =~= pieces.take(i as int).push(pieces[i as int]));
                    lemma_join_push(pieces.take(i as int), ", "@, pieces[i as int]);
                }
                if i > 0 {
                    text.append(", ");
                }
                let rendered = value_to_string(&entries[i].1);
                assert(view[i as int] == (entries[i as int].0@, entries[i as int].1@));
                text.append("\"");
                text.append(entries[i].0.as_str());
                text.append("\": ");
                text.append(rendered.as_str());
                assert(text@ =~= "{"@ + join(pieces.take(i + 1), ", "@));
                i = i + 1;
            }
            assert(pieces.take(i as int) =~= pieces);
            text.append("}");
            text
        },
    }
}

} // verus!
