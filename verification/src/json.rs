//! The decoded JSON request bodies that the validators read.
//!
//! A body is decoded outside the library; what reaches the validators is the
//! top-level object with each member reduced to what validation looks at.
use vstd::prelude::*;
use crate::text::str_eq;

verus! {

/// One JSON value as the validators see it.
#[derive(Debug)]
pub enum JsonValue {
    Null,
    Bool(bool),
    /// A number that fits in `i64`.
    Int(i64),
    /// Any other number (fractional, exponent, or out of `i64` range), by its JSON text.
    Number(String),
    Str(String),
    /// An array, by its JSON text.
    Array(String),
    /// An object, by its JSON text.
    Object(String),
}

/// The mathematical model of a `JsonValue`.
pub enum JsonView {
    Null,
    Bool(bool),
    Int(int),
    Number(Seq<char>),
    Str(Seq<char>),
    Array(Seq<char>),
    Object(Seq<char>),
}

impl View for JsonValue {
    type V = JsonView;

    open spec fn view(&self) -> JsonView {
        match self {
            JsonValue::Null => JsonView::Null,
            JsonValue::Bool(b) => JsonView::Bool(*b),
            JsonValue::Int(i) => JsonView::Int(*i as int),
            JsonValue::Number(t) => JsonView::Number(t@),
            JsonValue::Str(s) => JsonView::Str(s@),
            JsonValue::Array(t) => JsonView::Array(t@),
            JsonValue::Object(t) => JsonView::Object(t@),
        }
    }
}

impl JsonValue {
    /// A copy of the value.
    pub fn duplicate(&self) -> (r: JsonValue)
        ensures
            r@ == self@,
    {
        match self {
            JsonValue::Null => JsonValue::Null,
            JsonValue::Bool(b) => JsonValue::Bool(*b),
            JsonValue::Int(i) => JsonValue::Int(*i),
            JsonValue::Number(t) => JsonValue::Number(t.clone()),
            JsonValue::Str(s) => JsonValue::Str(s.clone()),
            JsonValue::Array(t) => JsonValue::Array(t.clone()),
            JsonValue::Object(t) => JsonValue::Object(t.clone()),
        }
    }
}

/// A JSON object: its members in order.
#[derive(Debug)]
pub struct JsonObject {
    pub members: Vec<(String, JsonValue)>,
}

impl View for JsonObject {
    type V = Seq<(Seq<char>, JsonView)>;

    open spec fn view(&self) -> Seq<(Seq<char>, JsonView)> {
        self.members@.map_values(|m: (String, JsonValue)| (m.0@, m.1@))
    }
}

/// The value of the first member named `key`.
pub open spec fn lookup(o: Seq<(Seq<char>, JsonView)>, key: Seq<char>) -> Option<JsonView>
    decreases o.len(),
{
    if o.len() == 0 {
        None
    } else if o[0].0 == key {
        Some(o[0].1)
    } else {
        lookup(o.drop_first(), key)
    }
}

proof fn lemma_lookup_skip(o: Seq<(Seq<char>, JsonView)>, key: Seq<char>, i: int)
    requires
        0 <= i <= o.len(),
        forall|j: int| 0 <= j < i ==> (#[trigger] o[j]).0 != key,
    ensures
        lookup(o, key) == lookup(o.skip(i), key),
    decreases i,
{
    if i > 0 {
        assert(o[0].0 != key);
        assert(o.drop_first().skip(i - 1) =~= o.skip(i));
        lemma_lookup_skip(o.drop_first(), key, i - 1);
    } else {
        assert(o.skip(0) =~= o);
    }
}

impl JsonObject {
    /// The value of the first member named `key`.
    pub fn get(&self, key: &str) -> (r: Option<&JsonValue>)
        ensures
            match r {
                Some(v) => lookup(self@, key@) == Some(v@),
                None => lookup(self@, key@) is None,
            },
    {
        let mut i: usize = 0;
        while i < self.members.len()
            invariant
                i <= self.members@.len(),
                forall|j: int| 0 <= j < i ==> (#[trigger] self@[j]).0 != key@,
            decreases self.members@.len() - i,
        {
            if str_eq(self.members[i].0.as_str(), key) {
                proof {
                    lemma_lookup_skip(self@, key@, i as int);
                    assert(self@.skip(i as int)[0] == self@[i as int]);
                }
                return Some(&self.members[i].1);
            }
            assert(self@[i as int].0 == self.members@[i as int].0@);
            i = i + 1;
        }
        proof {
            lemma_lookup_skip(self@, key@, i as int);
        }
        None
    }

    /// Whether a member named `key` is present (`Map::contains_key`).
    pub fn contains_key(&self, key: &str) -> (r: bool)
        ensures
            r == lookup(self@, key@) is Some,
    {
        self.get(key).is_some()
    }
}

} // verus!
