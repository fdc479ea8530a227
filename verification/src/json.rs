//! A plain-value model of a JSON document.
//!
//! The library treats generic JSON reading as an outside collaborator: a
//! host hands a fully structured tree over as a [`JsonValue`], and the
//! template decoder walks that tree.  A number is kept as its source
//! text, exactly as a numeric literal of an expression is; an object is
//! an ordered list of key/value entries.

use vstd::prelude::*;

verus! {

/// One JSON value.
#[derive(Debug, PartialEq)]
pub enum JsonValue {
    Null,
    Bool(bool),
    /// A number, kept as its source text.
    Number(String),
    /// A string value.
    Text(String),
    /// An array, in order.
    Array(Vec<JsonValue>),
    /// An object: its key/value entries, in order.
    Object(Vec<(String, JsonValue)>),
}

/// The mathematical view of a [`JsonValue`].
pub enum JsonView {
    Null,
    Bool(bool),
    Number(Seq<char>),
    Text(Seq<char>),
    Array(Seq<JsonView>),
    Object(Seq<(Seq<char>, JsonView)>),
}

/// The view of one JSON value.
pub open spec fn json_view(v: JsonValue) -> JsonView
    decreases v,
{
    match v {
        JsonValue::Null => JsonView::Null,
        JsonValue::Bool(b) => JsonView::Bool(b),
        JsonValue::Number(s) => JsonView::Number(s@),
        JsonValue::Text(s) => JsonView::Text(s@),
        JsonValue::Array(items) => JsonView::Array(jsons_view(items@)),
        JsonValue::Object(entries) => JsonView::Object(json_entries_view(entries@)),
    }
}

/// The views of a sequence of JSON values, in order.
pub open spec fn jsons_view(s: Seq<JsonValue>) -> Seq<JsonView>
    decreases s,
{
    if s.len() == 0 {
        Seq::empty()
    } else {
        seq![json_view(s[0])] + jsons_view(s.drop_first())
    }
}

/// The views of an object's entries, in order.
pub open spec fn json_entries_view(s: Seq<(String, JsonValue)>) -> Seq<(Seq<char>, JsonView)>
    decreases s,
{
    if s.len() == 0 {
        Seq::empty()
    } else {
        seq![(s[0].0@, json_view(s[0].1))] + json_entries_view(s.drop_first())
    }
}

impl DeepView for JsonValue {
    type V = JsonView;

    open spec fn deep_view(&self) -> JsonView {
        json_view(*self)
    }
}

/// The views sequence of an array has one view per element, in place.
pub proof fn lemma_jsons_view_index(s: Seq<JsonValue>)
    ensures
        jsons_view(s).len() == s.len(),
        forall|i: int| 0 <= i < s.len() ==> jsons_view(s)[i] == json_view(s[i]),
    decreases s.len(),
{
    if s.len() > 0 {
        lemma_jsons_view_index(s.drop_first());
        assert forall|i: int| 0 <= i < s.len() implies jsons_view(s)[i] == json_view(s[i]) by {
            if i > 0 {
                assert(jsons_view(s)[i] == jsons_view(s.drop_first())[i - 1]);
                assert(s.drop_first()[i - 1] == s[i]);
            }
        }
    }
}

/// The views sequence of an object's entries has one view per entry, in
/// place.
pub proof fn lemma_json_entries_view_index(s: Seq<(String, JsonValue)>)
    ensures
        json_entries_view(s).len() == s.len(),
        forall|i: int| 0 <= i < s.len() ==> json_entries_view(s)[i] == (s[i].0@, json_view(s[i].1)),
    decreases s.len(),
{
    if s.len() > 0 {
        lemma_json_entries_view_index(s.drop_first());
        assert forall|i: int| 0 <= i < s.len() implies json_entries_view(s)[i] == (
        s[i].0@,
        json_view(s[i].1),
        ) by {
            if i > 0 {
                assert(json_entries_view(s)[i] == json_entries_view(s.drop_first())[i - 1]);
                assert(s.drop_first()[i - 1] == s[i]);
            }
        }
    }
}

/// The value under the first occurrence of `key`, if any.
pub open spec fn lookup_spec(entries: Seq<(Seq<char>, JsonView)>, key: Seq<char>) -> Option<
    JsonView,
>
    decreases entries.len(),
{
    if entries.len() == 0 {
        None
    } else if entries[0].0 == key {
        Some(entries[0].1)
    } else {
        lookup_spec(entries.drop_first(), key)
    }
}

/// Characterizes [`lookup_spec`] at the first matching position.
pub proof fn lemma_lookup_at(entries: Seq<(Seq<char>, JsonView)>, key: Seq<char>, j: int)
    requires
        0 <= j < entries.len(),
        entries[j].0 == key,
        forall|i: int| 0 <= i < j ==> entries[i].0 != key,
    ensures
        lookup_spec(entries, key) == Some(entries[j].1),
    decreases j,
{
    if j > 0 {
        lemma_lookup_at(entries.drop_first(), key, j - 1);
        assert(entries.drop_first()[j - 1] == entries[j]);
        assert forall|i: int| 0 <= i < j - 1 implies entries.drop_first()[i].0 != key by {
            assert(entries.drop_first()[i] == entries[i + 1]);
        }
    }
}

/// Characterizes [`lookup_spec`] when no entry holds the key.
pub proof fn lemma_lookup_absent(entries: Seq<(Seq<char>, JsonView)>, key: Seq<char>)
    requires
        forall|i: int| 0 <= i < entries.len() ==> entries[i].0 != key,
    ensures
        lookup_spec(entries, key) is None,
    decreases entries.len(),
{
    if entries.len() > 0 {
        assert forall|i: int| 0 <= i < entries.len() - 1 implies entries.drop_first()[i].0
            != key by {
            assert(entries.drop_first()[i] == entries[i + 1]);
        }
        lemma_lookup_absent(entries.drop_first(), key);
    }
}

} // verus!
