use vstd::prelude::*;
use crate::text::{lookup, str_eq};

verus! {

/// A JSON value as the conversion reads it. Numbers keep the text that
/// `serde_json` prints for them; objects keep their members in order.
#[derive(Debug, PartialEq)]
pub enum JsonValue {
    Null,
    Bool(bool),
    Number(String),
    Text(String),
    Array(Vec<JsonValue>),
    Object(Vec<(String, JsonValue)>),
}

/// The mathematical model of a `JsonValue`.
pub enum Json {
    Null,
    Bool(bool),
    Number(Seq<char>),
    Text(Seq<char>),
    Array(Seq<Json>),
    Object(Seq<(Seq<char>, Json)>),
}

/// The models of a sequence of values, element by element.
pub open spec fn json_seq_view(s: Seq<JsonValue>) -> Seq<Json>
    decreases s,
{
    if s.len() == 0 {
        Seq::empty()
    } else {
        seq![json_view(s[0])] + json_seq_view(s.drop_first())
    }
}

/// The models of a sequence of object members, member by member.
pub open spec fn members_view(s: Seq<(String, JsonValue)>) -> Seq<(Seq<char>, Json)>
    decreases s,
{
    if s.len() == 0 {
        Seq::empty()
    } else {
        seq![(s[0].0@, json_view(s[0].1))] + members_view(s.drop_first())
    }
}

/// The model of a value.
pub open spec fn json_view(v: JsonValue) -> Json
    decreases v,
{
    match v {
        JsonValue::Null => Json::Null,
        JsonValue::Bool(b) => Json::Bool(b),
        JsonValue::Number(n) => Json::Number(n@),
        JsonValue::Text(t) => Json::Text(t@),
        JsonValue::Array(a) => Json::Array(json_seq_view(a@)),
        JsonValue::Object(m) => Json::Object(members_view(m@)),
    }
}

impl View for JsonValue {
    type V = Json;

    open spec fn view(&self) -> Json {
        json_view(*self)
    }
}

/// `json_seq_view` keeps the length and maps each element to its model.
pub proof fn lemma_json_seq_view(s: Seq<JsonValue>)
    ensures
        json_seq_view(s).len() == s.len(),
        forall|i: int| 0 <= i < s.len() ==> #[trigger] json_seq_view(s)[i] == json_view(s[i]),
    decreases s.len(),
{
    if s.len() > 0 {
        lemma_json_seq_view(s.drop_first());
        assert forall|i: int| 0 <= i < s.len() implies #[trigger] json_seq_view(s)[i] == json_view(
            s[i],
        ) by {
            if i > 0 {
                assert(s.drop_first()[i - 1] == s[i]);
            }
        }
    }
}

/// `members_view` keeps the length and maps each member to its model.
pub proof fn lemma_members_view(s: Seq<(String, JsonValue)>)
    ensures
        members_view(s).len() == s.len(),
        forall|i: int|
            0 <= i < s.len() ==> #[trigger] members_view(s)[i] == (s[i].0@, json_view(s[i].1)),
    decreases s.len(),
{
    if s.len() > 0 {
        lemma_members_view(s.drop_first());
        assert forall|i: int| 0 <= i < s.len() implies #[trigger] members_view(s)[i] == (
            s[i].0@,
            json_view(s[i].1),
        ) by {
            if i > 0 {
                assert(s.drop_first()[i - 1] == s[i]);
            }
        }
    }
}

/// `v.get(key)`: the member `key` of an object; nothing for other values.
pub open spec fn json_get(v: Json, key: Seq<char>) -> Option<Json> {
    match v {
        Json::Object(m) => lookup(m, key),
        _ => None,
    }
}

/// `v[key]`: the member `key` of an object, `null` where there is none.
pub open spec fn json_at(v: Json, key: Seq<char>) -> Json {
    match json_get(v, key) {
        Some(x) => x,
        None => Json::Null,
    }
}

/// `v.as_str()`: the text of a string value.
pub open spec fn json_str(v: Json) -> Option<Seq<char>> {
    match v {
        Json::Text(t) => Some(t),
        _ => None,
    }
}

/// `v.as_array()`: the elements of an array value.
pub open spec fn json_array(v: Json) -> Option<Seq<Json>> {
    match v {
        Json::Array(a) => Some(a),
        _ => None,
    }
}

/// The member of an object named `key`.
pub fn get<'a>(v: &'a JsonValue, key: &str) -> (r: Option<&'a JsonValue>)
    ensures
        match r {
            Some(x) => json_get(v@, key@) == Some(x@),
            None => json_get(v@, key@) is None,
        },
{
    match v {
        JsonValue::Object(m) => {
            let ghost ms = members_view(m@);
            proof {
                lemma_members_view(m@);
                assert(ms.skip(0) =~= ms);
            }
            let mut i: usize = 0;
            while i < m.len()
                invariant
                    v@ == Json::Object(ms),
                    ms == members_view(m@),
                    ms.len() == m@.len(),
                    forall|j: int|
                        0 <= j < m@.len() ==> #[trigger] ms[j] == (m@[j].0@, json_view(m@[j].1)),
                    i <= m@.len(),
                    lookup(ms, key@) == lookup(ms.skip(i as int), key@),
                decreases m@.len() - i,
            {
                let e = &m[i];
                assert(ms.skip(i as int).len() > 0);
                assert(ms.skip(i as int)[0] == ms[i as int]);
                if str_eq(e.0.as_str(), key) {
                    return Some(&e.1);
                }
                assert(ms.skip(i as int).drop_first() =~= ms.skip(i + 1));
                i = i + 1;
            }
            None
        },
        _ => None,
    }
}

/// The member `key` of an object as text, if it is a string.
pub fn get_str<'a>(v: &'a JsonValue, key: &str) -> (r: Option<&'a String>)
    ensures
        match r {
            Some(s) => json_str(json_at(v@, key@)) == Some(s@),
            None => json_str(json_at(v@, key@)) is None,
        },
{
    match get(v, key) {
        Some(JsonValue::Text(s)) => Some(s),
        _ => None,
    }
}

/// A copy of a value with the same model.
pub fn clone_json(v: &JsonValue) -> (r: JsonValue)
    ensures
        r@ == v@,
    decreases v,
{
    match v {
        JsonValue::Null => JsonValue::Null,
        JsonValue::Bool(b) => JsonValue::Bool(*b),
        JsonValue::Number(n) => JsonValue::Number(n.clone()),
        JsonValue::Text(t) => JsonValue::Text(t.clone()),
        JsonValue::Array(a) => {
            let mut out: Vec<JsonValue> = Vec::new();
            proof {
                lemma_json_seq_view(a@);
            }
            for i in 0..a.len()
                invariant
                    *v == JsonValue::Array(*a),
                    out@.len() == i,
                    forall|j: int| 0 <= j < i ==> json_view(#[trigger] out@[j]) == json_view(a@[j]),
            {
                proof {
                    let ghost w = *v;
                    assert(w->Array_0 == *a);
                    assert(decreases_to!(w => w->Array_0));
                    assert(decreases_to!(*a => a@));
                    assert(decreases_to!(a@ => a@[i as int]));
                }
                let c = clone_json(&a[i]);
                out.push(c);
            }
            proof {
                lemma_json_seq_view(out@);
                assert(json_seq_view(out@) =~= json_seq_view(a@));
            }
            JsonValue::Array(out)
        },
        JsonValue::Object(m) => {
            let mut out: Vec<(String, JsonValue)> = Vec::new();
            proof {
                lemma_members_view(m@);
            }
            for i in 0..m.len()
                invariant
                    *v == JsonValue::Object(*m),
                    out@.len() == i,
                    forall|j: int|
                        0 <= j < i ==> (#[trigger] out@[j]).0@ == m@[j].0@,
                    forall|j: int|
                        0 <= j < i ==> json_view((#[trigger] out@[j]).1) == json_view(m@[j].1),
            {
                proof {
                    let ghost w = *v;
                    assert(w->Object_0 == *m);
                    assert(decreases_to!(w => w->Object_0));
                    assert(decreases_to!(*m => m@));
                    assert(decreases_to!(m@ => m@[i as int]));
                    assert(decreases_to!(m@[i as int] => m@[i as int].1));
                }
                let c = clone_json(&m[i].1);
                let k = m[i].0.clone();
                out.push((k, c));
            }
            proof {
                lemma_members_view(out@);
                assert(members_view(out@) =~= members_view(m@));
            }
            JsonValue::Object(out)
        },
    }
}

#[verifier::external_type_specification]
#[verifier::external_body]
pub struct ExSerdeJsonValue(serde_json::Value);

/// The model of what `serde_json::from_str::<serde_json::Value>` reads from a
/// text; `None` where it rejects the text.
pub uninterp spec fn json_parse(text: Seq<char>) -> Option<Json>;

/// Turns a `serde_json::Value` into a `JsonValue`, variant by variant; numbers
/// keep the text that `serde_json` prints for them. Only `parse_json` uses it.
#[verifier::external_body]
fn from_serde_value(v: serde_json::Value) -> JsonValue {
    match v {
        serde_json::Value::Null => JsonValue::Null,
        serde_json::Value::Bool(b) => JsonValue::Bool(b),
        serde_json::Value::Number(n) => JsonValue::Number(n.to_string()),
        serde_json::Value::String(t) => JsonValue::Text(t),
        serde_json::Value::Array(a) => JsonValue::Array(a.into_iter().map(from_serde_value).collect()),
        serde_json::Value::Object(m) => JsonValue::Object(
            m.into_iter().map(|(k, x)| (k, from_serde_value(x))).collect(),
        ),
    }
}

/// Calls `serde_json::from_str::<serde_json::Value>`: the value is the one
/// that `json_parse` names for the text, and `None` comes exactly where the
/// text is not JSON.
#[verifier::external_body]
pub(crate) fn parse_json(text: &str) -> (r: Option<JsonValue>)
    ensures
        match r {
            Some(v) => json_parse(text@) == Some(v@),
            None => json_parse(text@) is None,
        },
{
    serde_json::from_str::<serde_json::Value>(text).ok().map(from_serde_value)
}

/// The model of the compact text that `serde_json` prints for a value (its
/// `Display`, as `Value::to_string` gives it).
pub uninterp spec fn json_compact_text(v: Json) -> Seq<char>;

/// Turns a `JsonValue` into a `serde_json::Value`, variant by variant; a
/// number text that `serde_json` does not read as a number becomes `null`.
/// Only `to_json_text` uses it.
#[verifier::external_body]
fn to_serde_value(v: &JsonValue) -> serde_json::Value {
    match v {
        JsonValue::Null => serde_json::Value::Null,
        JsonValue::Bool(b) => serde_json::Value::Bool(*b),
        JsonValue::Number(n) => match serde_json::from_str::<serde_json::Number>(n) {
            Ok(x) => serde_json::Value::Number(x),
            Err(_) => serde_json::Value::Null,
        },
        JsonValue::Text(t) => serde_json::Value::String(t.clone()),
        JsonValue::Array(a) => serde_json::Value::Array(a.iter().map(to_serde_value).collect()),
        JsonValue::Object(m) => serde_json::Value::Object(
            m.iter().map(|(k, x)| (k.clone(), to_serde_value(x))).collect(),
        ),
    }
}

/// Calls `serde_json::Value::to_string` on the value: the text is the one
/// that `json_compact_text` names for the value's model.
#[verifier::external_body]
pub fn to_json_text(v: &JsonValue) -> (s: String)
    ensures
        s@ == json_compact_text(v@),
{
    to_serde_value(v).to_string()
}

} // verus!
