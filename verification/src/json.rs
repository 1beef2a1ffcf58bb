//! JSON values: null, booleans, numbers, strings, arrays and objects with
//! their members in order, as the library reads payloads and replies, and
//! their text.

use vstd::prelude::*;
use vstd::string::StringExecFns;

use crate::codex_config::{json_quote, json_string_literal};
use crate::text::{chars_of, join, join_chars, push_all, vecs_view};

verus! {

/// A JSON number: its value as `u64` and as `i64` where it has one, and its
/// text as `serde_json` writes it.
#[derive(Debug)]
pub struct JsonNumber {
    pub as_u64: Option<u64>,
    pub as_i64: Option<i64>,
    pub text: String,
}

/// A JSON value.  An object lists its members in order, each key once.
#[derive(Debug)]
pub enum JsonValue {
    Null,
    Bool(bool),
    Number(JsonNumber),
    String(String),
    Array(Vec<JsonValue>),
    Object(Vec<(String, JsonValue)>),
}

/// The index of the first member of `members` named `key`, or the number of
/// members.
pub open spec fn member_index(members: Seq<(String, JsonValue)>, key: Seq<char>) -> int
    decreases members.len(),
{
    if members.len() == 0 {
        0
    } else if members[0].0@ == key {
        0
    } else {
        1 + member_index(members.drop_first(), key)
    }
}

/// `Value::get(key)`: the member named `key` of an object, `None` for a
/// missing member or a value that is not an object.
pub open spec fn json_get(v: JsonValue, key: Seq<char>) -> Option<JsonValue> {
    match v {
        JsonValue::Object(members) => {
            let i = member_index(members@, key);
            if 0 <= i < members@.len() {
                Some(members@[i].1)
            } else {
                None
            }
        },
        _ => None,
    }
}

/// `Value::as_str`.
pub open spec fn json_str(v: Option<JsonValue>) -> Option<Seq<char>> {
    match v {
        Some(JsonValue::String(s)) => Some(s@),
        _ => None,
    }
}

/// `Value::as_array`.
pub open spec fn json_array(v: Option<JsonValue>) -> Option<Seq<JsonValue>> {
    match v {
        Some(JsonValue::Array(items)) => Some(items@),
        _ => None,
    }
}

/// The value an optional reference points to.
pub open spec fn opt_value(v: Option<&JsonValue>) -> Option<JsonValue> {
    match v {
        Some(x) => Some(*x),
        None => None,
    }
}

/// `a.or_else(|| b)` for optional values.
pub open spec fn or_else<T>(a: Option<T>, b: Option<T>) -> Option<T> {
    match a {
        Some(x) => Some(x),
        None => b,
    }
}

proof fn lemma_member_index(members: Seq<(String, JsonValue)>, key: Seq<char>)
    ensures
        0 <= member_index(members, key) <= members.len(),
        member_index(members, key) < members.len() ==> members[member_index(members, key)].0@
            == key,
        forall|k: int| 0 <= k < member_index(members, key) ==> members[k].0@ != key,
    decreases members.len(),
{
    if members.len() > 0 && members[0].0@ != key {
        lemma_member_index(members.drop_first(), key);
        let r = member_index(members.drop_first(), key);
        assert forall|k: int| 0 <= k < member_index(members, key) implies members[k].0@ != key by {
            if k > 0 {
                assert(members[k] == members.drop_first()[k - 1]);
            }
        }
    }
}

impl JsonValue {
    /// `Value::get(key)`.
    pub fn get(&self, key: &str) -> (r: Option<&JsonValue>)
        ensures
            match r {
                Some(x) => json_get(*self, key@) == Some(*x),
                None => json_get(*self, key@) is None,
            },
    {
        match self {
            JsonValue::Object(members) => {
                proof {
                    lemma_member_index(members@, key@);
                }
                let k = String::from_str(key);
                let mut i: usize = 0;
                while i < members.len()
                    invariant
                        i <= members@.len(),
                        k@ == key@,
                        *self == JsonValue::Object(*members),
                        forall|k: int| 0 <= k < i ==> members@[k].0@ != key@,
                        0 <= member_index(members@, key@) <= members@.len(),
                        member_index(members@, key@) < members@.len() ==> members@[member_index(
                            members@,
                            key@,
                        )].0@ == key@,
                        forall|k: int|
                            0 <= k < member_index(members@, key@) ==> members@[k].0@ != key@,
                    decreases members@.len() - i,
                {
                    if members[i].0 == k {
                        assert(member_index(members@, key@) == i);
                        return Some(&members[i].1);
                    }
                    i = i + 1;
                }
                None
            },
            _ => None,
        }
    }

    /// `Value::as_str`.
    pub fn as_str(&self) -> (r: Option<&String>)
        ensures
            match r {
                Some(s) => json_str(Some(*self)) == Some(s@),
                None => json_str(Some(*self)) is None,
            },
    {
        match self {
            JsonValue::String(s) => Some(s),
            _ => None,
        }
    }

    /// `Value::as_array`.
    pub fn as_array(&self) -> (r: Option<&Vec<JsonValue>>)
        ensures
            match r {
                Some(items) => json_array(Some(*self)) == Some(items@),
                None => json_array(Some(*self)) is None,
            },
    {
        match self {
            JsonValue::Array(items) => Some(items),
            _ => None,
        }
    }
}

/// `a.or_else(|| b)` for optional values.
pub fn first_some<'a>(a: Option<&'a JsonValue>, b: Option<&'a JsonValue>) -> (r: Option<&'a JsonValue>)
    ensures
        r == or_else(a, b),
{
    match a {
        Some(x) => Some(x),
        None => b,
    }
}

/// `v.and_then(Value::as_str)`.
pub fn opt_str(v: Option<&JsonValue>) -> (r: Option<&String>)
    ensures
        match r {
            Some(s) => json_str(match v {
                Some(x) => Some(*x),
                None => None,
            }) == Some(s@),
            None => json_str(match v {
                Some(x) => Some(*x),
                None => None,
            }) is None,
        },
{
    match v {
        Some(x) => x.as_str(),
        None => None,
    }
}

/// What a JSON value holds, with sequences in place of vectors.
pub enum JsonData {
    Null,
    Bool(bool),
    Number(Option<u64>, Option<i64>, Seq<char>),
    Str(Seq<char>),
    Array(Seq<JsonData>),
    Object(Seq<(Seq<char>, JsonData)>),
}

/// The contents of a JSON value.
pub open spec fn json_data(v: JsonValue) -> JsonData
    decreases v,
    via json_data_decreases
{
    match v {
        JsonValue::Null => JsonData::Null,
        JsonValue::Bool(b) => JsonData::Bool(b),
        JsonValue::Number(n) => JsonData::Number(n.as_u64, n.as_i64, n.text@),
        JsonValue::String(s) => JsonData::Str(s@),
        JsonValue::Array(items) => JsonData::Array(
            Seq::new(
                items@.len(),
                |i: int|
                    if 0 <= i < items@.len() {
                        json_data(items[i])
                    } else {
                        JsonData::Null
                    },
            ),
        ),
        JsonValue::Object(members) => JsonData::Object(
            Seq::new(
                members@.len(),
                |i: int|
                    if 0 <= i < members@.len() {
                        (members[i].0@, json_data(members[i].1))
                    } else {
                        (Seq::empty(), JsonData::Null)
                    },
            ),
        ),
    }
}

#[via_fn]
proof fn json_data_decreases(v: JsonValue) {
    match v {
        JsonValue::Array(items) => {
            assert forall|i: int| 0 <= i < items@.len() implies decreases_to!(v => items[i]) by {
                vstd::std_specs::vec::axiom_vec_index_decreases(items, i);
                assert(decreases_to!(v => v->Array_0));
            }
        },
        JsonValue::Object(members) => {
            assert forall|i: int| 0 <= i < members@.len() implies decreases_to!(v => members[i].1) by {
                vstd::std_specs::vec::axiom_vec_index_decreases(members, i);
                assert(decreases_to!(v => v->Object_0));
                assert(decreases_to!(v => members[i]));
            }
        },
        _ => {},
    }
}

/// A copy of a JSON value.
pub fn clone_json(v: &JsonValue) -> (r: JsonValue)
    ensures
        json_data(r) == json_data(*v),
    decreases v,
{
    match v {
        JsonValue::Null => JsonValue::Null,
        JsonValue::Bool(b) => JsonValue::Bool(*b),
        JsonValue::Number(n) => JsonValue::Number(
            JsonNumber { as_u64: n.as_u64, as_i64: n.as_i64, text: n.text.clone() },
        ),
        JsonValue::String(s) => JsonValue::String(s.clone()),
        JsonValue::Array(items) => {
            let mut out: Vec<JsonValue> = Vec::new();
            let mut i: usize = 0;
            while i < items.len()
                invariant
                    i <= items@.len(),
                    *v == JsonValue::Array(*items),
                    out@.len() == i,
                    forall|k: int| 0 <= k < i ==> json_data(#[trigger] out@[k]) == json_data(items@[k]),
                decreases items@.len() - i,
            {
                proof {
                    vstd::std_specs::vec::axiom_vec_index_decreases(*items, i as int);
                    assert(decreases_to!(*v => v->Array_0));
                    assert(decreases_to!(*v => items[i as int]));
                }
                let c = clone_json(&items[i]);
                out.push(c);
                i = i + 1;
            }
            let r = JsonValue::Array(out);
            assert(json_data(r) == json_data(*v)) by {
                if let JsonData::Array(a) = json_data(r) {
                    if let JsonData::Array(b) = json_data(*v) {
                        assert(a =~= b);
                    }
                }
            }
            r
        },
        JsonValue::Object(members) => {
            let mut out: Vec<(String, JsonValue)> = Vec::new();
            let mut i: usize = 0;
            while i < members.len()
                invariant
                    i <= members@.len(),
                    *v == JsonValue::Object(*members),
                    out@.len() == i,
                    forall|k: int|
                        0 <= k < i ==> (#[trigger] out@[k]).0@ == members@[k].0@ && json_data(
                            out@[k].1,
                        ) == json_data(members@[k].1),
                decreases members@.len() - i,
            {
                proof {
                    vstd::std_specs::vec::axiom_vec_index_decreases(*members, i as int);
                    assert(decreases_to!(*v => v->Object_0));
                    assert(decreases_to!(*v => members[i as int]));
                    assert(decreases_to!(*v => members[i as int].1));
                }
                let c = clone_json(&members[i].1);
                out.push((members[i].0.clone(), c));
                i = i + 1;
            }
            let r = JsonValue::Object(out);
            assert(json_data(r) == json_data(*v)) by {
                if let JsonData::Object(a) = json_data(r) {
                    if let JsonData::Object(b) = json_data(*v) {
                        assert(a =~= b);
                    }
                }
            }
            r
        },
    }
}

/// The compact JSON text of a value, as `serde_json` writes it: strings as
/// JSON string literals, numbers as their text, no white space.
pub open spec fn json_text(d: JsonData) -> Seq<char>
    decreases d, 1nat,
{
    match d {
        JsonData::Null => "null"@,
        JsonData::Bool(b) => if b {
            "true"@
        } else {
            "false"@
        },
        JsonData::Number(_, _, t) => t,
        JsonData::Str(s) => json_string_literal(s),
        JsonData::Array(items) => "["@ + join(item_texts(d, items), ","@) + "]"@,
        JsonData::Object(members) => "{"@ + join(member_texts(d, members), ","@) + "}"@,
    }
}

/// The texts of the items of the array `d`.
pub open spec fn item_texts(d: JsonData, items: Seq<JsonData>) -> Seq<Seq<char>>
    decreases d, 0nat,
    via item_texts_decreases
{
    Seq::new(
        items.len(),
        |i: int|
            if 0 <= i < items.len() && d == JsonData::Array(items) {
                json_text(items[i])
            } else {
                seq![]
            },
    )
}

#[via_fn]
proof fn item_texts_decreases(d: JsonData, items: Seq<JsonData>) {
    assert forall|i: int| 0 <= i < items.len() && d == JsonData::Array(items) implies decreases_to!(
        d => items[i]) by {
        assert(decreases_to!(d => d->Array_0));
    }
}

/// The `"key":value` texts of the members of the object `d`.
pub open spec fn member_texts(d: JsonData, members: Seq<(Seq<char>, JsonData)>) -> Seq<Seq<char>>
    decreases d, 0nat,
    via member_texts_decreases
{
    Seq::new(
        members.len(),
        |i: int|
            if 0 <= i < members.len() && d == JsonData::Object(members) {
                json_string_literal(members[i].0) + ":"@ + json_text(members[i].1)
            } else {
                seq![]
            },
    )
}

#[via_fn]
proof fn member_texts_decreases(d: JsonData, members: Seq<(Seq<char>, JsonData)>) {
    assert forall|i: int|
        0 <= i < members.len() && d == JsonData::Object(members) implies decreases_to!(
        d => members[i].1) by {
        assert(decreases_to!(d => d->Object_0));
        assert(decreases_to!(d => members[i]));
    }
}

/// The compact JSON text of `v`, as `serde_json` writes it.
pub fn json_text_of(v: &JsonValue) -> (r: Vec<char>)
    ensures
        r@ == json_text(json_data(*v)),
    decreases v,
{
    match v {
        JsonValue::Null => chars_of("null"),
        JsonValue::Bool(b) => if *b {
            chars_of("true")
        } else {
            chars_of("false")
        },
        JsonValue::Number(n) => chars_of(n.text.as_str()),
        JsonValue::String(s) => match json_quote(s.as_str()) {
            Ok(t) => chars_of(t.as_str()),
            Err(_) => Vec::new(),
        },
        JsonValue::Array(items) => {
            let ghost d = json_data(*v);
            let mut parts: Vec<Vec<char>> = Vec::new();
            let mut i: usize = 0;
            while i < items.len()
                invariant
                    i <= items@.len(),
                    *v == JsonValue::Array(*items),
                    parts@.len() == i,
                    forall|k: int|
                        0 <= k < i ==> (#[trigger] parts@[k])@ == json_text(json_data(items@[k])),
                decreases items@.len() - i,
            {
                proof {
                    vstd::std_specs::vec::axiom_vec_index_decreases(*items, i as int);
                    assert(decreases_to!(*v => v->Array_0));
                    assert(decreases_to!(*v => items[i as int]));
                }
                let t = json_text_of(&items[i]);
                parts.push(t);
                i = i + 1;
            }
            let body = join_chars(&parts, chars_of(",").as_slice());
            let mut out = chars_of("[");
            push_all(&mut out, body.as_slice());
            out.push(']');
            proof {
                reveal_strlit("]");
                if let JsonData::Array(ds) = d {
                    assert(vecs_view(parts@) =~= item_texts(d, ds));
                    assert(out@ =~= "["@ + join(item_texts(d, ds), ","@) + "]"@);
                }
            }
            out
        },
        JsonValue::Object(members) => {
            let ghost d = json_data(*v);
            let mut parts: Vec<Vec<char>> = Vec::new();
            let mut i: usize = 0;
            while i < members.len()
                invariant
                    i <= members@.len(),
                    *v == JsonValue::Object(*members),
                    parts@.len() == i,
                    forall|k: int|
                        0 <= k < i ==> (#[trigger] parts@[k])@ == json_string_literal(
                            members@[k].0@,
                        ) + ":"@ + json_text(json_data(members@[k].1)),
                decreases members@.len() - i,
            {
                proof {
                    vstd::std_specs::vec::axiom_vec_index_decreases(*members, i as int);
                    assert(decreases_to!(*v => v->Object_0));
                    assert(decreases_to!(*v => members[i as int]));
                    assert(decreases_to!(*v => members[i as int].1));
                }
                let t = json_text_of(&members[i].1);
                let mut p = match json_quote(members[i].0.as_str()) {
                    Ok(q) => chars_of(q.as_str()),
                    Err(_) => Vec::new(),
                };
                p.push(':');
                push_all(&mut p, t.as_slice());
                proof {
                    reveal_strlit(":");
                }
                assert(p@ =~= json_string_literal(members@[i as int].0@) + ":"@ + json_text(
                    json_data(members@[i as int].1),
                ));
                parts.push(p);
                i = i + 1;
            }
            let body = join_chars(&parts, chars_of(",").as_slice());
            let mut out = chars_of("{");
            push_all(&mut out, body.as_slice());
            out.push('}');
            proof {
                reveal_strlit("}");
                if let JsonData::Object(ds) = d {
                    assert(vecs_view(parts@) =~= member_texts(d, ds));
                    assert(out@ =~= "{"@ + join(member_texts(d, ds), ","@) + "}"@);
                }
            }
            out
        },
    }
}

#[verifier::external_type_specification]
#[verifier::external_body]
pub struct ExSerdeValue(serde_json::Value);

/// What `serde_json::from_str::<Value>` reads from a text: the value, or
/// nothing when the text is not JSON.
pub uninterp spec fn json_parsed(text: Seq<char>) -> Option<JsonData>;

/// A `serde_json::Value` as a [`JsonValue`], variant for variant; a number
/// keeps `as_u64`, `as_i64` and its `Display` text.
#[verifier::external_body]
fn from_serde(v: &serde_json::Value) -> JsonValue {
    match v {
        serde_json::Value::Null => JsonValue::Null,
        serde_json::Value::Bool(b) => JsonValue::Bool(*b),
        serde_json::Value::Number(n) => JsonValue::Number(
            JsonNumber { as_u64: n.as_u64(), as_i64: n.as_i64(), text: n.to_string() },
        ),
        serde_json::Value::String(t) => JsonValue::String(t.clone()),
        serde_json::Value::Array(a) => JsonValue::Array(a.iter().map(from_serde).collect()),
        serde_json::Value::Object(m) => JsonValue::Object(
            m.iter().map(|(k, x)| (k.clone(), from_serde(x))).collect(),
        ),
    }
}

/// `serde_json::from_str::<Value>(text)`, its error dropped.
///
/// The reading itself is `serde_json`'s and is not restated: the result is
/// tied to the text by the name `json_parsed` alone.
#[verifier::external_body]
pub(crate) fn parse_json(text: &str) -> (r: Option<JsonValue>)
    ensures
        match r {
            Some(v) => json_parsed(text@) == Some(json_data(v)),
            None => json_parsed(text@) is None,
        },
{
    match serde_json::from_str::<serde_json::Value>(text) {
        Ok(v) => Some(from_serde(&v)),
        Err(_) => None,
    }
}

/// Reads a JSON text: the value it holds, or `None` when it is not JSON.
pub fn read_json(text: &str) -> (r: Option<JsonValue>)
    ensures
        match r {
            Some(v) => json_parsed(text@) == Some(json_data(v)),
            None => json_parsed(text@) is None,
        },
{
    parse_json(text)
}

} // verus!
