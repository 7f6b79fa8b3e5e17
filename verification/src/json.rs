//! JSON documents as plain values.
use crate::seqs::{first_where, lemma_first_found, lemma_first_none};
use crate::text::same_text;
use vstd::prelude::*;

verus! {

/// A JSON value.
#[derive(Debug)]
pub enum Json {
    Null,
    Bool(bool),
    /// A number, as the parser renders it.
    Number(String),
    Text(String),
    Array(Vec<Json>),
    /// The members of an object, each name once.
    Object(Vec<(String, Json)>),
}

/// The contents of a [`Json`] value.
pub enum JsonView {
    Null,
    Bool(bool),
    Number(Seq<char>),
    Text(Seq<char>),
    Array(Seq<JsonView>),
    Object(Seq<(Seq<char>, JsonView)>),
}

/// The contents of a JSON value.
pub open spec fn json_view(j: Json) -> JsonView
    decreases j,
{
    match j {
        Json::Null => JsonView::Null,
        Json::Bool(b) => JsonView::Bool(b),
        Json::Number(n) => JsonView::Number(n@),
        Json::Text(s) => JsonView::Text(s@),
        Json::Array(v) => JsonView::Array(
            Seq::new(
                v@.len(),
                |i: int|
                    if 0 <= i < v@.len() {
                        json_view(v@[i])
                    } else {
                        JsonView::Null
                    },
            ),
        ),
        Json::Object(ms) => JsonView::Object(
            Seq::new(
                ms@.len(),
                |i: int|
                    if 0 <= i < ms@.len() {
                        (ms@[i].0@, json_view(ms@[i].1))
                    } else {
                        (Seq::empty(), JsonView::Null)
                    },
            ),
        ),
    }
}

impl DeepView for Json {
    type V = JsonView;

    open spec fn deep_view(&self) -> JsonView {
        json_view(*self)
    }
}

/// A parsed JSON value of serde_json, an array or an object of further values or
/// a scalar.
#[verifier::external_type_specification]
#[verifier::external_body]
pub struct ExJsonValue(serde_json::Value);

/// The document that some bytes hold, if they are well-formed JSON.
pub uninterp spec fn json_document(bytes: Seq<u8>) -> Option<JsonView>;

/// What a parsed value holds: its scalars, and the contents of its arrays and
/// objects.
pub uninterp spec fn value_contents(v: serde_json::Value) -> JsonView;

/// Calls `serde_json::from_slice` for a `serde_json::Value`. It succeeds on
/// well-formed JSON only, and what it gives depends on the bytes alone.
#[verifier::external_body]
fn parse_value(bytes: &[u8]) -> (r: Option<serde_json::Value>)
    ensures
        json_document(bytes@) == match r {
            Some(v) => Some(value_contents(v)),
            None => None,
        },
{
    serde_json::from_slice(bytes).ok()
}

/// Converts a `serde_json::Value` one for one, nested values and members
/// together with it.
#[verifier::external_body]
fn plain_value(v: serde_json::Value) -> (r: Json)
    ensures
        r.deep_view() == value_contents(v),
{
    match v {
        serde_json::Value::Null => Json::Null,
        serde_json::Value::Bool(b) => Json::Bool(b),
        serde_json::Value::Number(n) => Json::Number(n.to_string()),
        serde_json::Value::String(s) => Json::Text(s),
        serde_json::Value::Array(a) => Json::Array(a.into_iter().map(plain_value).collect()),
        serde_json::Value::Object(m) => {
            Json::Object(m.into_iter().map(|(k, x)| (k, plain_value(x))).collect())
        }
    }
}

/// Parse a JSON document.
pub fn parse_json(bytes: &[u8]) -> (r: Option<Json>)
    ensures
        r.deep_view() == json_document(bytes@),
{
    match parse_value(bytes) {
        Some(v) => Some(plain_value(v)),
        None => None,
    }
}

/// Tells the member of a name.
pub open spec fn is_member(name: Seq<char>) -> spec_fn((Seq<char>, JsonView)) -> bool {
    |m: (Seq<char>, JsonView)| m.0 == name
}

/// The member of an object; nothing of anything else.
pub open spec fn member(j: JsonView, name: Seq<char>) -> Option<JsonView> {
    match j {
        JsonView::Object(ms) => match first_where(ms, is_member(name)) {
            Some(m) => Some(m.1),
            None => None,
        },
        _ => None,
    }
}

/// The items of an array; nothing of anything else.
pub open spec fn items(j: JsonView) -> Option<Seq<JsonView>> {
    match j {
        JsonView::Array(v) => Some(v),
        _ => None,
    }
}

/// The text of a string; nothing of anything else.
pub open spec fn string(j: JsonView) -> Option<Seq<char>> {
    match j {
        JsonView::Text(s) => Some(s),
        _ => None,
    }
}

/// The text of a member.
pub open spec fn string_member(j: JsonView, name: Seq<char>) -> Option<Seq<char>> {
    match member(j, name) {
        Some(m) => string(m),
        None => None,
    }
}

/// The items of a member.
pub open spec fn items_member(j: JsonView, name: Seq<char>) -> Option<Seq<JsonView>> {
    match member(j, name) {
        Some(m) => items(m),
        None => None,
    }
}

impl Json {
    /// The member of an object.
    pub fn get(&self, name: &str) -> (r: Option<&Json>)
        ensures
            r.deep_view() == member(self.deep_view(), name@),
    {
        match self {
            Json::Object(ms) => {
                let ghost p = is_member(name@);
                let ghost all = self.deep_view()->Object_0;
                let mut i: usize = 0;
                while i < ms.len()
                    invariant
                        self.deep_view() == JsonView::Object(all),
                        all.len() == ms@.len(),
                        forall|j: int|
                            0 <= j < all.len() ==> #[trigger] all[j] == (
                                ms@[j].0@,
                                ms@[j].1.deep_view(),
                            ),
                        p == is_member(name@),
                        i <= ms@.len(),
                        forall|j: int| 0 <= j < i ==> !p(#[trigger] all[j]),
                    decreases ms@.len() - i,
                {
                    assert(all[i as int] == (ms@[i as int].0@, ms@[i as int].1.deep_view()));
                    if same_text(ms[i].0.as_str(), name) {
                        proof {
                            lemma_first_found(all, p, i as int);
                        }
                        return Some(&ms[i].1);
                    }
                    i = i + 1;
                }
                proof {
                    lemma_first_none(all, p);
                }
                None
            },
            _ => None,
        }
    }

    /// The items of an array.
    pub fn as_array(&self) -> (r: Option<&Vec<Json>>)
        ensures
            r.deep_view() == items(self.deep_view()),
    {
        match self {
            Json::Array(v) => {
                assert(v.deep_view() =~= self.deep_view()->Array_0);
                Some(v)
            },
            _ => None,
        }
    }

    /// The text of a string.
    pub fn as_str(&self) -> (r: Option<&str>)
        ensures
            r.deep_view() == string(self.deep_view()),
    {
        match self {
            Json::Text(s) => Some(s.as_str()),
            _ => None,
        }
    }

    /// The text of a member, copied.
    pub fn get_str(&self, name: &str) -> (r: Option<String>)
        ensures
            r.deep_view() == string_member(self.deep_view(), name@),
    {
        match self.get(name) {
            Some(m) => match m.as_str() {
                Some(s) => Some(s.to_string()),
                None => None,
            },
            None => None,
        }
    }

    /// The items of a member.
    pub fn get_array(&self, name: &str) -> (r: Option<&Vec<Json>>)
        ensures
            r.deep_view() == items_member(self.deep_view(), name@),
    {
        match self.get(name) {
            Some(m) => m.as_array(),
            None => None,
        }
    }
}

} // verus!
