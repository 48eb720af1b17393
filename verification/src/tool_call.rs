use vstd::prelude::*;
use crate::json::{
    Json, JsonValue, clone_json, get, json_get, json_parse, lemma_members_view, members_view,
    parse_json,
};
use crate::text::{is_blank, trim};

verus! {

/// The metadata keys that are carried over from a tool call.
pub open spec fn metadata_keys() -> Seq<Seq<char>> {
    seq!["thought_signature"@]
}

fn metadata_key(i: usize) -> (k: &'static str)
    requires
        i < metadata_keys().len(),
    ensures
        k@ == metadata_keys()[i as int],
{
    "thought_signature"
}

fn metadata_key_count() -> (n: usize)
    ensures
        n == metadata_keys().len(),
{
    1
}

/// The member `key` of an object nested under `outer` in `v`.
pub open spec fn nested_member(v: Json, outer: Seq<char>, key: Seq<char>) -> Option<Json> {
    match json_get(v, outer) {
        Some(o) => json_get(o, key),
        None => None,
    }
}

/// The value of the metadata key `key` in a tool call: at its top level, else
/// under `metadata`, else under `extra_content.google`.
pub open spec fn metadata_value(tc: Json, key: Seq<char>) -> Option<Json> {
    match json_get(tc, key) {
        Some(v) => Some(v),
        None => match nested_member(tc, "metadata"@, key) {
            Some(v) => Some(v),
            None => match json_get(tc, "extra_content"@) {
                Some(e) => nested_member(e, "google"@, key),
                None => None,
            },
        },
    }
}

/// The metadata members of a tool call for the given keys, in key order,
/// leaving out the keys that have no value.
pub open spec fn metadata_members(tc: Json, keys: Seq<Seq<char>>) -> Seq<(Seq<char>, Json)>
    decreases keys.len(),
{
    if keys.len() == 0 {
        Seq::empty()
    } else {
        let prev = metadata_members(tc, keys.drop_last());
        match metadata_value(tc, keys.last()) {
            Some(v) => prev.push((keys.last(), v)),
            None => prev,
        }
    }
}

/// The metadata of a tool call: nothing when the call is no object or holds
/// none of the metadata keys.
pub open spec fn tool_call_metadata(tc: Json) -> Option<Seq<(Seq<char>, Json)>> {
    match tc {
        Json::Object(_) => {
            let m = metadata_members(tc, metadata_keys());
            if m.len() == 0 {
                None
            } else {
                Some(m)
            }
        },
        _ => None,
    }
}

fn nested_get<'a>(v: &'a JsonValue, outer: &str, key: &str) -> (r: Option<&'a JsonValue>)
    ensures
        match r {
            Some(x) => nested_member(v@, outer@, key@) == Some(x@),
            None => nested_member(v@, outer@, key@) is None,
        },
{
    match get(v, outer) {
        Some(o) => get(o, key),
        None => None,
    }
}

fn metadata_value_of<'a>(tc: &'a JsonValue, key: &str) -> (r: Option<&'a JsonValue>)
    ensures
        match r {
            Some(x) => metadata_value(tc@, key@) == Some(x@),
            None => metadata_value(tc@, key@) is None,
        },
{
    if let Some(v) = get(tc, key) {
        return Some(v);
    }
    if let Some(v) = nested_get(tc, "metadata", key) {
        return Some(v);
    }
    match get(tc, "extra_content") {
        Some(e) => nested_get(e, "google", key),
        None => None,
    }
}

/// Extracts the allowlisted metadata keys of a tool call. Returns `None`
/// when the call is no object or none of the keys is present.
pub fn extract_tool_call_metadata(tc: &JsonValue) -> (r: Option<Vec<(String, JsonValue)>>)
    ensures
        match r {
            Some(m) => tool_call_metadata(tc@) == Some(members_view(m@)),
            None => tool_call_metadata(tc@) is None,
        },
{
    match tc {
        JsonValue::Object(_) => {},
        _ => {
            return None;
        },
    }
    let n = metadata_key_count();
    let mut meta: Vec<(String, JsonValue)> = Vec::new();
    assert(metadata_keys().take(0) =~= Seq::<Seq<char>>::empty());
    for i in 0..n
        invariant
            n == metadata_keys().len(),
            members_view(meta@) == metadata_members(tc@, metadata_keys().take(i as int)),
    {
        let k = metadata_key(i);
        let ghost prev = meta@;
        assert(metadata_keys().take(i + 1).drop_last() =~= metadata_keys().take(i as int));
        if let Some(v) = metadata_value_of(tc, k) {
            let c = clone_json(v);
            meta.push((k.to_owned(), c));
            proof {
                lemma_members_view(prev);
                lemma_members_view(meta@);
                assert(members_view(meta@) =~= members_view(prev).push((k@, c@)));
            }
        }
    }
    assert(metadata_keys().take(n as int) =~= metadata_keys());
    if meta.len() == 0 {
        proof {
            lemma_members_view(meta@);
        }
        None
    } else {
        proof {
            lemma_members_view(meta@);
        }
        Some(meta)
    }
}

/// The note attached to tool-call arguments that are not valid JSON.
pub open spec fn invalid_arguments_note() -> Seq<char> {
    "tool call arguments are not valid JSON"@
}

/// Tool-call arguments as decoded from the `arguments` member of the call's
/// `function`, with an optional note on why they could not be decoded.
pub struct DecodedArguments {
    pub arguments: JsonValue,
    pub diagnostic: Option<String>,
}

/// What decoding gives for the raw arguments: nothing, `null` and blank text
/// become an empty object; other text is read as JSON, and text that is not
/// JSON becomes an empty object with a note; any other value is kept.
pub open spec fn decoded_arguments(raw: Option<Json>) -> (Json, Option<Seq<char>>) {
    match raw {
        None => (Json::Object(Seq::empty()), None),
        Some(Json::Null) => (Json::Object(Seq::empty()), None),
        Some(Json::Text(t)) => if trim(t).len() == 0 {
            (Json::Object(Seq::empty()), None)
        } else {
            match json_parse(t) {
                Some(v) => (v, None),
                None => (Json::Object(Seq::empty()), Some(invalid_arguments_note())),
            }
        },
        Some(v) => (v, None),
    }
}

fn empty_object() -> (v: JsonValue)
    ensures
        v@ == Json::Object(Seq::empty()),
{
    let v = JsonValue::Object(Vec::new());
    assert(members_view(Seq::<(String, JsonValue)>::empty()) =~= Seq::empty());
    v
}

/// Decodes the raw arguments of a tool call into a JSON value.
pub fn decode_tool_call_arguments_with_diagnostic(raw: Option<&JsonValue>) -> (d: DecodedArguments)
    ensures
        (d.arguments@, crate::chat::opt_view(d.diagnostic)) == decoded_arguments(
            match raw {
                Some(v) => Some(v@),
                None => None,
            },
        ),
{
    match raw {
        None => DecodedArguments { arguments: empty_object(), diagnostic: None },
        Some(JsonValue::Null) => DecodedArguments { arguments: empty_object(), diagnostic: None },
        Some(JsonValue::Text(t)) => {
            if is_blank(t.as_str()) {
                DecodedArguments { arguments: empty_object(), diagnostic: None }
            } else {
                match parse_json(t.as_str()) {
                    Some(v) => DecodedArguments { arguments: v, diagnostic: None },
                    None => DecodedArguments {
                        arguments: empty_object(),
                        diagnostic: Some("tool call arguments are not valid JSON".to_owned()),
                    },
                }
            }
        },
        Some(v) => DecodedArguments { arguments: clone_json(v), diagnostic: None },
    }
}

} // verus!
