use vstd::prelude::*;
use crate::chat::{
    ChatMessage, MessageView, ToolCall, ToolCallView, calls_view, messages_view, opt_view,
};
use crate::json::{
    Json, JsonValue, get, get_str, json_array, json_at, json_get, json_seq_view, json_str,
    json_compact_text, lemma_json_seq_view, to_json_text,
};
use crate::media::SessionMedia;
use crate::media::SessionMediaView;
use crate::text::{str_eq, trim, trimmed};
use crate::tool_call::{
    decode_tool_call_arguments_with_diagnostic, decoded_arguments, extract_tool_call_metadata,
    tool_call_metadata,
};
use crate::tool_result::{limited, maybe_limit_tool_result_content};
use crate::user::{user_message, user_message_of};

verus! {

/// The role of a stored message, where it is a string.
pub open spec fn role_of(val: Json) -> Option<Seq<char>> {
    json_str(json_at(val, "role"@))
}

/// A text member of a message, empty where it is missing or no string.
pub open spec fn str_or_empty(val: Json, key: Seq<char>) -> Seq<char> {
    match json_str(json_at(val, key)) {
        Some(s) => s,
        None => Seq::empty(),
    }
}

/// The reasoning of a message, trimmed; nothing where it is missing, no
/// string or blank.
pub open spec fn reasoning_of(val: Json) -> Option<Seq<char>> {
    match json_str(json_at(val, "reasoning"@)) {
        Some(s) => if trim(s).len() == 0 {
            None
        } else {
            Some(trim(s))
        },
        None => None,
    }
}

/// The tool call that one entry of `tool_calls` gives: nothing without a
/// string `id` and a string `function.name`.
pub open spec fn tool_call_of(tc: Json) -> Option<ToolCallView> {
    match (json_str(json_at(tc, "id"@)), json_str(json_at(json_at(tc, "function"@), "name"@))) {
        (Some(id), Some(name)) => {
            let d = decoded_arguments(json_get(json_at(tc, "function"@), "arguments"@));
            Some(
                ToolCallView {
                    id,
                    name,
                    arguments: d.0,
                    argument_diagnostic: d.1,
                    metadata: tool_call_metadata(tc),
                },
            )
        },
        _ => None,
    }
}

/// The tool calls of a list of entries, in order, leaving out invalid ones.
pub open spec fn tool_calls_in(tcs: Seq<Json>) -> Seq<ToolCallView>
    decreases tcs.len(),
{
    if tcs.len() == 0 {
        Seq::empty()
    } else {
        let prev = tool_calls_in(tcs.drop_last());
        match tool_call_of(tcs.last()) {
            Some(c) => prev.push(c),
            None => prev,
        }
    }
}

/// The tool calls of a stored assistant message.
pub open spec fn assistant_tool_calls(val: Json) -> Seq<ToolCallView> {
    match json_array(json_at(val, "tool_calls"@)) {
        Some(tcs) => tool_calls_in(tcs),
        None => Seq::empty(),
    }
}

/// The message that a stored assistant message becomes.
pub open spec fn assistant_message(val: Json) -> MessageView {
    MessageView::Assistant {
        content: json_str(json_at(val, "content"@)),
        tool_calls: assistant_tool_calls(val),
        reasoning: reasoning_of(val),
    }
}

/// The ids of a list of tool calls.
pub open spec fn call_ids(calls: Seq<ToolCallView>) -> Set<Seq<char>> {
    Set::new(|id: Seq<char>| exists|j: int| 0 <= j < calls.len() && calls[j].id == id)
}

/// The content of a stored `tool` message: its text, or the JSON text of
/// whatever else stands there (`null` where nothing does).
pub open spec fn tool_content(val: Json) -> Seq<char> {
    match json_str(json_at(val, "content"@)) {
        Some(s) => s,
        None => json_compact_text(json_at(val, "content"@)),
    }
}

/// The content of a stored `tool_result` entry: `Error: ` and the error
/// where there is one, else the result as text or JSON text, else empty.
pub open spec fn tool_result_content(val: Json) -> Seq<char> {
    match json_str(json_at(val, "error"@)) {
        Some(e) => "Error: "@ + e,
        None => match json_get(val, "result"@) {
            Some(r) => match json_str(r) {
                Some(s) => s,
                None => json_compact_text(r),
            },
            None => Seq::empty(),
        },
    }
}

/// The message is an assistant message that asks for the tool call `id`.
pub open spec fn answers_call(m: MessageView, id: Seq<char>) -> bool {
    match m {
        MessageView::Assistant { tool_calls, .. } => exists|j: int|
            0 <= j < tool_calls.len() && (#[trigger] tool_calls[j]).id == id,
        _ => false,
    }
}

/// `i` is the last message that asks for the tool call `id`.
pub open spec fn is_last_asker(msgs: Seq<MessageView>, id: Seq<char>, i: int) -> bool {
    &&& 0 <= i < msgs.len()
    &&& answers_call(msgs[i], id)
    &&& forall|j: int| i < j < msgs.len() ==> !answers_call(#[trigger] msgs[j], id)
}

/// An assistant message given a reasoning where it has none.
pub open spec fn with_reasoning(m: MessageView, r: Seq<char>) -> MessageView {
    match m {
        MessageView::Assistant { content, tool_calls, reasoning } => MessageView::Assistant {
            content,
            tool_calls,
            reasoning: match reasoning {
                Some(x) => Some(x),
                None => Some(r),
            },
        },
        _ => m,
    }
}

/// The messages with `r` given as reasoning to the last assistant message
/// that asks for the tool call `id`, unless it has a reasoning already.
pub open spec fn attach_reasoning(msgs: Seq<MessageView>, id: Seq<char>, r: Seq<char>) -> Seq<
    MessageView,
> {
    if exists|i: int| is_last_asker(msgs, id, i) {
        let i = choose|i: int| is_last_asker(msgs, id, i);
        msgs.update(i, with_reasoning(msgs[i], r))
    } else {
        msgs
    }
}

/// The state of a conversion: the messages made so far, and the ids of the
/// tool calls asked for that no tool message has answered yet.
pub struct ConversionState {
    pub messages: Seq<MessageView>,
    pub pending: Set<Seq<char>>,
}

/// How one stored message changes the state of a conversion.
///
/// - `system`: a system message with the text content (empty if none).
/// - `user`: a user message (see `user_message`).
/// - `assistant`: an assistant message; its tool call ids become pending.
/// - `tool` and `tool_result`: the id stops being pending; when orphans are
///   filtered and the id was not pending, nothing else happens. Otherwise a
///   tool message with the (limited) content follows; for `tool_result` the
///   entry's reasoning first goes to the assistant message that asked.
/// - anything else (no role, `notice`, unknown roles): nothing.
pub open spec fn step(
    st: ConversionState,
    val: Json,
    filter_orphans: bool,
    limit: Option<usize>,
    media: SessionMediaView,
) -> ConversionState {
    match role_of(val) {
        None => st,
        Some(role) => if role == "system"@ {
            ConversionState {
                messages: st.messages.push(
                    MessageView::System { content: str_or_empty(val, "content"@) },
                ),
                pending: st.pending,
            }
        } else if role == "user"@ {
            ConversionState {
                messages: st.messages.push(user_message(val, media)),
                pending: st.pending,
            }
        } else if role == "assistant"@ {
            ConversionState {
                messages: st.messages.push(assistant_message(val)),
                pending: st.pending.union(call_ids(assistant_tool_calls(val))),
            }
        } else if role == "tool"@ || role == "tool_result"@ {
            let id = str_or_empty(val, "tool_call_id"@);
            let pending = st.pending.remove(id);
            if filter_orphans && !st.pending.contains(id) {
                ConversionState { messages: st.messages, pending }
            } else if role == "tool"@ {
                ConversionState {
                    messages: st.messages.push(
                        MessageView::Tool {
                            tool_call_id: id,
                            content: limited(tool_content(val), limit),
                        },
                    ),
                    pending,
                }
            } else {
                let msgs = match reasoning_of(val) {
                    Some(r) => attach_reasoning(st.messages, id, r),
                    None => st.messages,
                };
                ConversionState {
                    messages: msgs.push(
                        MessageView::Tool {
                            tool_call_id: id,
                            content: limited(tool_result_content(val), limit),
                        },
                    ),
                    pending,
                }
            }
        } else {
            st
        },
    }
}

/// The state after converting `vals` in order from an empty state.
pub open spec fn run(
    vals: Seq<Json>,
    filter_orphans: bool,
    limit: Option<usize>,
    media: SessionMediaView,
) -> ConversionState
    decreases vals.len(),
{
    if vals.len() == 0 {
        ConversionState { messages: Seq::empty(), pending: Set::empty() }
    } else {
        step(run(vals.drop_last(), filter_orphans, limit, media), vals.last(), filter_orphans, limit, media)
    }
}

/// The messages that converting `vals` gives.
pub open spec fn converted(
    vals: Seq<Json>,
    filter_orphans: bool,
    limit: Option<usize>,
    media: SessionMediaView,
) -> Seq<MessageView> {
    run(vals, filter_orphans, limit, media).messages
}

/// The models of a sequence of stored values.
pub open spec fn values_view(s: Seq<JsonValue>) -> Seq<Json> {
    s.map_values(|v: JsonValue| v@)
}

fn tool_call_of_value(tc: &JsonValue) -> (r: Option<ToolCall>)
    ensures
        match r {
            Some(c) => tool_call_of(tc@) == Some(c@),
            None => tool_call_of(tc@) is None,
        },
{
    let id = match get_str(tc, "id") {
        Some(s) => s,
        None => return None,
    };
    let function = get(tc, "function");
    let name = match function {
        Some(f) => get_str(f, "name"),
        None => None,
    };
    let name = match name {
        Some(n) => n,
        None => return None,
    };
    let raw = match function {
        Some(f) => get(f, "arguments"),
        None => None,
    };
    let decoded = decode_tool_call_arguments_with_diagnostic(raw);
    let metadata = extract_tool_call_metadata(tc);
    Some(
        ToolCall {
            id: id.clone(),
            name: name.clone(),
            arguments: decoded.arguments,
            argument_diagnostic: decoded.diagnostic,
            metadata,
        },
    )
}

fn tool_calls_of_value(val: &JsonValue) -> (r: Vec<ToolCall>)
    ensures
        calls_view(r@) == assistant_tool_calls(val@),
{
    let tcs = match get(val, "tool_calls") {
        Some(JsonValue::Array(a)) => a,
        _ => {
            let r: Vec<ToolCall> = Vec::new();
            assert(calls_view(r@) =~= Seq::<ToolCallView>::empty());
            return r;
        },
    };
    let ghost tv = json_seq_view(tcs@);
    proof {
        lemma_json_seq_view(tcs@);
    }
    let mut calls: Vec<ToolCall> = Vec::new();
    assert(tv.take(0) =~= Seq::<Json>::empty());
    assert(calls_view(calls@) =~= Seq::<ToolCallView>::empty());
    for i in 0..tcs.len()
        invariant
            tv == json_seq_view(tcs@),
            tv.len() == tcs@.len(),
            forall|j: int| 0 <= j < tcs@.len() ==> #[trigger] tv[j] == tcs@[j]@,
            calls_view(calls@) == tool_calls_in(tv.take(i as int)),
    {
        let ghost prev = calls@;
        assert(tv.take(i + 1).drop_last() =~= tv.take(i as int));
        assert(tv.take(i + 1).last() == tv[i as int]);
        if let Some(c) = tool_call_of_value(&tcs[i]) {
            calls.push(c);
            assert(calls_view(calls@) =~= calls_view(prev).push(calls@.last()@));
        }
    }
    assert(tv.take(tcs@.len() as int) =~= tv);
    calls
}

fn reasoning_of_value(val: &JsonValue) -> (r: Option<String>)
    ensures
        opt_view(r) == reasoning_of(val@),
{
    match get_str(val, "reasoning") {
        Some(s) => {
            let t = trimmed(s.as_str());
            if t.as_str().unicode_len() == 0 {
                None
            } else {
                Some(t)
            }
        },
        None => None,
    }
}

/// The ids of the tools calls that are still waiting for an answer.
pub open spec fn pending_set(p: Seq<String>) -> Set<Seq<char>> {
    Set::new(|id: Seq<char>| exists|j: int| 0 <= j < p.len() && p[j]@ == id)
}

fn add_pending(pending: &mut Vec<String>, calls: &Vec<ToolCall>)
    ensures
        pending_set(final(pending)@) == pending_set(old(pending)@).union(
            call_ids(calls_view(calls@)),
        ),
{
    let ghost start = pending@;
    for i in 0..calls.len()
        invariant
            pending@.len() == start.len() + i,
            forall|j: int| 0 <= j < start.len() ==> #[trigger] pending@[j] == start[j],
            forall|j: int| 0 <= j < i ==> (#[trigger] pending@[start.len() + j])@ == calls@[j].id@,
    {
        pending.push(calls[i].id.clone());
    }
    let ghost cv = calls_view(calls@);
    assert forall|id: Seq<char>|
        pending_set(pending@).contains(id) == (pending_set(start).contains(id) || call_ids(
            cv,
        ).contains(id)) by {
        if pending_set(pending@).contains(id) {
            let j = choose|j: int| 0 <= j < pending@.len() && pending@[j]@ == id;
            if j >= start.len() {
                let k = j - start.len();
                assert(pending@[start.len() + k]@ == calls@[k].id@);
                assert(cv[k].id == id);
            } else {
                assert(start[j]@ == id);
            }
        }
        if pending_set(start).contains(id) {
            let j = choose|j: int| 0 <= j < start.len() && start[j]@ == id;
            assert(pending@[j]@ == id);
        }
        if call_ids(cv).contains(id) {
            let j = choose|j: int| 0 <= j < cv.len() && cv[j].id == id;
            assert(pending@[start.len() + j]@ == id);
        }
    }
    assert(pending_set(pending@) =~= pending_set(start).union(call_ids(cv)));
}

proof fn lemma_pending_set_push(s: Seq<String>, x: String)
    ensures
        pending_set(s.push(x)) == pending_set(s).insert(x@),
{
    assert forall|id: Seq<char>| #[trigger]
        pending_set(s.push(x)).contains(id) == pending_set(s).insert(x@).contains(id) by {
        if pending_set(s.push(x)).contains(id) {
            let j = choose|j: int| 0 <= j < s.push(x).len() && s.push(x)[j]@ == id;
            if j < s.len() {
                assert(s[j]@ == id);
            }
        }
        if pending_set(s).contains(id) {
            let j = choose|j: int| 0 <= j < s.len() && s[j]@ == id;
            assert(s.push(x)[j]@ == id);
        }
        if id == x@ {
            assert(s.push(x)[s.len() as int]@ == id);
        }
    }
    assert(pending_set(s.push(x)) =~= pending_set(s).insert(x@));
}

fn take_pending(pending: &mut Vec<String>, id: &str) -> (had: bool)
    ensures
        had == pending_set(old(pending)@).contains(id@),
        pending_set(final(pending)@) == pending_set(old(pending)@).remove(id@),
{
    let ghost start = pending@;
    let mut kept: Vec<String> = Vec::new();
    let mut had = false;
    assert(pending_set(start.take(0)) =~= Set::<Seq<char>>::empty());
    assert(pending_set(kept@) =~= Set::<Seq<char>>::empty());
    for i in 0..pending.len()
        invariant
            pending@ == start,
            had == pending_set(start.take(i as int)).contains(id@),
            pending_set(kept@) == pending_set(start.take(i as int)).remove(id@),
    {
        let ghost before = kept@;
        proof {
            assert(start.take(i + 1) =~= start.take(i as int).push(start[i as int]));
            lemma_pending_set_push(start.take(i as int), start[i as int]);
        }
        if str_eq(pending[i].as_str(), id) {
            had = true;
            assert(pending_set(kept@) =~= pending_set(start.take(i + 1)).remove(id@));
        } else {
            let c = pending[i].clone();
            kept.push(c);
            proof {
                lemma_pending_set_push(before, c);
            }
            assert(pending_set(kept@) =~= pending_set(start.take(i + 1)).remove(id@));
        }
    }
    assert(start.take(start.len() as int) =~= start);
    *pending = kept;
    had
}

fn calls_contain(calls: &Vec<ToolCall>, id: &str) -> (r: bool)
    ensures
        r == exists|j: int| 0 <= j < calls@.len() && calls@[j].id@ == id@,
{
    for i in 0..calls.len()
        invariant
            forall|j: int| 0 <= j < i ==> calls@[j].id@ != id@,
    {
        if str_eq(calls[i].id.as_str(), id) {
            return true;
        }
    }
    false
}

/// Gives `tool_reasoning` to the last assistant message that asks for the
/// tool call `tool_call_id`, unless that message has a reasoning already.
pub fn attach_reasoning_to_assistant_tool_call(
    messages: &mut Vec<ChatMessage>,
    tool_call_id: &str,
    tool_reasoning: String,
)
    ensures
        messages_view(final(messages)@) == attach_reasoning(
            messages_view(old(messages)@),
            tool_call_id@,
            tool_reasoning@,
        ),
{
    let ghost mv = messages_view(messages@);
    let n = messages.len();
    let mut i: usize = n;
    while i > 0
        invariant
            messages@ == old(messages)@,
            mv == messages_view(messages@),
            n == messages@.len(),
            i <= n,
            forall|j: int| i <= j < n ==> !answers_call(#[trigger] mv[j], tool_call_id@),
        decreases i,
    {
        let k = i - 1;
        let asks = match &messages[k] {
            ChatMessage::Assistant { tool_calls, .. } => calls_contain(tool_calls, tool_call_id),
            _ => false,
        };
        proof {
            if asks {
                let tc = messages@[k as int]->tool_calls;
                let j = choose|j: int| 0 <= j < tc@.len() && tc@[j].id@ == tool_call_id@;
                assert(calls_view(tc@)[j].id == tool_call_id@);
            } else {
                if let ChatMessage::Assistant { tool_calls, .. } = messages@[k as int] {
                    assert forall|j: int| 0 <= j < calls_view(tool_calls@).len() implies (
                    #[trigger] calls_view(tool_calls@)[j]).id != tool_call_id@ by {
                        assert(calls_view(tool_calls@)[j] == tool_calls@[j]@);
                    }
                }
            }
        }
        if asks {
            let m = messages.remove(k);
            let m2 = match m {
                ChatMessage::Assistant { content, tool_calls, reasoning } => {
                    let reasoning = match reasoning {
                        Some(x) => Some(x),
                        None => Some(tool_reasoning),
                    };
                    ChatMessage::Assistant { content, tool_calls, reasoning }
                },
                other => other,
            };
            messages.insert(k, m2);
            proof {
                assert(is_last_asker(mv, tool_call_id@, k as int));
                assert forall|x: int| is_last_asker(mv, tool_call_id@, x) implies x == k by {
                    if x < k {
                        assert(answers_call(mv[k as int], tool_call_id@));
                    }
                }
                let ch = choose|x: int| is_last_asker(mv, tool_call_id@, x);
                assert(ch == k);
                assert(messages_view(messages@) =~= mv.update(
                    k as int,
                    with_reasoning(mv[k as int], tool_reasoning@),
                ));
            }
            return ;
        }
        i = k;
    }
    assert(!exists|x: int| is_last_asker(mv, tool_call_id@, x));
}

fn tool_content_of(val: &JsonValue) -> (r: String)
    ensures
        r@ == tool_content(val@),
{
    match get(val, "content") {
        Some(c) => match c {
            JsonValue::Text(s) => s.clone(),
            _ => to_json_text(c),
        },
        None => to_json_text(&JsonValue::Null),
    }
}

fn tool_result_content_of(val: &JsonValue) -> (r: String)
    ensures
        r@ == tool_result_content(val@),
{
    if let Some(e) = get_str(val, "error") {
        let mut s = "Error: ".to_owned();
        s.append(e.as_str());
        return s;
    }
    match get(val, "result") {
        Some(r) => match r {
            JsonValue::Text(s) => s.clone(),
            _ => to_json_text(r),
        },
        None => String::new(),
    }
}

fn str_member_or_empty(val: &JsonValue, key: &str) -> (r: String)
    ensures
        r@ == str_or_empty(val@, key@),
{
    match get_str(val, key) {
        Some(s) => s.clone(),
        None => String::new(),
    }
}

fn values_to_chat_messages_inner(
    values: &[JsonValue],
    filter_orphan_tool_results: bool,
    max_tool_result_bytes: Option<usize>,
    media: &SessionMedia,
) -> (r: Vec<ChatMessage>)
    ensures
        messages_view(r@) == converted(
            values_view(values@),
            filter_orphan_tool_results,
            max_tool_result_bytes,
            media@,
        ),
{
    let ghost vv = values_view(values@);
    let mut messages: Vec<ChatMessage> = Vec::new();
    let mut pending: Vec<String> = Vec::new();
    assert(vv.take(0) =~= Seq::<Json>::empty());
    assert(messages_view(messages@) =~= Seq::<MessageView>::empty());
    assert(pending_set(pending@) =~= Set::<Seq<char>>::empty());
    for i in 0..values.len()
        invariant
            vv == values_view(values@),
            vv.len() == values@.len(),
            messages_view(messages@) == run(
                vv.take(i as int),
                filter_orphan_tool_results,
                max_tool_result_bytes,
                media@,
            ).messages,
            pending_set(pending@) == run(
                vv.take(i as int),
                filter_orphan_tool_results,
                max_tool_result_bytes,
                media@,
            ).pending,
    {
        let val = &values[i];
        let ghost st = run(vv.take(i as int), filter_orphan_tool_results, max_tool_result_bytes, media@);
        let ghost prev = messages@;
        assert(vv.take(i + 1).drop_last() =~= vv.take(i as int));
        assert(vv.take(i + 1).last() == val@);
        if let Some(role) = get_str(val, "role") {
            let r = role.as_str();
            if str_eq(r, "system") {
                messages.push(ChatMessage::system(str_member_or_empty(val, "content")));
                assert(messages_view(messages@) =~= messages_view(prev).push(messages@.last()@));
            } else if str_eq(r, "user") {
                messages.push(user_message_of(val, media));
                assert(messages_view(messages@) =~= messages_view(prev).push(messages@.last()@));
            } else if str_eq(r, "assistant") {
                let content = match get_str(val, "content") {
                    Some(s) => Some(s.clone()),
                    None => None,
                };
                let reasoning = reasoning_of_value(val);
                let tool_calls = tool_calls_of_value(val);
                add_pending(&mut pending, &tool_calls);
                messages.push(ChatMessage::Assistant { content, tool_calls, reasoning });
                assert(messages_view(messages@) =~= messages_view(prev).push(messages@.last()@));
            } else if str_eq(r, "tool") || str_eq(r, "tool_result") {
                let is_tool = str_eq(r, "tool");
                let tool_call_id = str_member_or_empty(val, "tool_call_id");
                let has_matching_assistant = take_pending(&mut pending, tool_call_id.as_str());
                if filter_orphan_tool_results && !has_matching_assistant {
                } else if is_tool {
                    let content = maybe_limit_tool_result_content(
                        tool_content_of(val),
                        max_tool_result_bytes,
                    );
                    messages.push(ChatMessage::tool(tool_call_id, content));
                    assert(messages_view(messages@) =~= messages_view(prev).push(messages@.last()@));
                } else {
                    if let Some(reasoning) = reasoning_of_value(val) {
                        attach_reasoning_to_assistant_tool_call(
                            &mut messages,
                            tool_call_id.as_str(),
                            reasoning,
                        );
                    }
                    let ghost mid = messages@;
                    let content = maybe_limit_tool_result_content(
                        tool_result_content_of(val),
                        max_tool_result_bytes,
                    );
                    messages.push(ChatMessage::tool(tool_call_id, content));
                    assert(messages_view(messages@) =~= messages_view(mid).push(messages@.last()@));
                }
            }
        }
    }
    assert(vv.take(values@.len() as int) =~= vv);
    messages
}

/// Converts persisted JSON messages (from the session store) to typed chat
/// messages. Messages without a string `role`, `notice` entries and unknown
/// roles are skipped; tool messages that answer no pending assistant tool
/// call are dropped; metadata members are not carried over.
pub fn values_to_chat_messages(values: &[JsonValue], media: &SessionMedia) -> (r: Vec<ChatMessage>)
    ensures
        messages_view(r@) == converted(values_view(values@), true, None, media@),
{
    values_to_chat_messages_inner(values, true, None, media)
}

/// Converts persisted JSON messages like `values_to_chat_messages`, and cuts
/// each tool result down to at most `max_tool_result_bytes` bytes.
pub fn values_to_chat_messages_with_tool_result_limit(
    values: &[JsonValue],
    max_tool_result_bytes: usize,
    media: &SessionMedia,
) -> (r: Vec<ChatMessage>)
    ensures
        messages_view(r@) == converted(
            values_view(values@),
            true,
            Some(max_tool_result_bytes),
            media@,
        ),
{
    values_to_chat_messages_inner(values, true, Some(max_tool_result_bytes), media)
}

/// Converts provider-format JSON messages to typed chat messages, keeping
/// every tool message whether or not it answers a pending tool call.
pub fn provider_values_to_chat_messages(values: &[JsonValue], media: &SessionMedia) -> (r: Vec<
    ChatMessage,
>)
    ensures
        messages_view(r@) == converted(values_view(values@), false, None, media@),
{
    values_to_chat_messages_inner(values, false, None, media)
}

} // verus!
