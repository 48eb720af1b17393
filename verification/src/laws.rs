use vstd::prelude::*;
use vstd::utf8::encode_utf8;
use crate::chat::MessageView;
use crate::convert::{
    answers_call, attach_reasoning, converted, is_last_asker, reasoning_of, role_of, run, step,
    str_or_empty, tool_content, tool_result_content, with_reasoning,
};
use crate::json::{Json, json_get};
use crate::media::{
    SessionMediaView, after_last_dot, ascii_lower, ascii_lower_char, base64_separator, data_prefix,
    data_uri_parts, find_from, image_mime_of_filename,
};
use crate::tool_call::{
    metadata_keys, metadata_members, metadata_value, nested_member, tool_call_metadata,
};
use crate::tool_result::{char_width, fit_count, limited, sanitized};

verus! {

proof fn lemma_fit_count_bounds(s: Seq<char>, budget: int)
    ensures
        fit_count(s, budget) <= s.len(),
        encode_utf8(s.take(fit_count(s, budget) as int)).len() <= budget || fit_count(s, budget)
            == 0,
        budget >= 0 ==> encode_utf8(s.take(fit_count(s, budget) as int)).len() <= budget,
        encode_utf8(s).len() <= budget ==> fit_count(s, budget) == s.len(),
    decreases s.len(),
{
    if s.len() == 0 || char_width(s[0]) > budget {
        assert(s.take(0) =~= Seq::<char>::empty());
        if s.len() > 0 {
            assert(encode_utf8(s).len() == char_width(s[0]) + encode_utf8(s.drop_first()).len());
        }
    } else {
        let rest = s.drop_first();
        let b2 = budget - char_width(s[0]);
        lemma_fit_count_bounds(rest, b2);
        let k = fit_count(s, budget) as int;
        assert(s.take(k).drop_first() =~= rest.take(k - 1));
        assert(s.take(k)[0] == s[0]);
        assert(encode_utf8(s.take(k)).len() == char_width(s[0]) + encode_utf8(rest.take(k - 1)).len());
        assert(encode_utf8(s).len() == char_width(s[0]) + encode_utf8(rest).len());
        assert(char_width(s[0]) >= 0);
    }
}

proof fn lemma_fit_count_maximal(s: Seq<char>, budget: int)
    ensures
        fit_count(s, budget) < s.len() ==> encode_utf8(s.take(fit_count(s, budget) as int + 1)).len()
            > budget,
    decreases s.len(),
{
    if s.len() > 0 {
        let k = fit_count(s, budget) as int;
        if k < s.len() {
            let t = s.take(k + 1);
            assert(t[0] == s[0]);
            assert(encode_utf8(t).len() == char_width(s[0]) + encode_utf8(t.drop_first()).len());
            if char_width(s[0]) > budget {
                assert(encode_utf8(t.drop_first()).len() >= 0);
            } else {
                let rest = s.drop_first();
                lemma_fit_count_maximal(rest, budget - char_width(s[0]));
                assert(t.drop_first() =~= rest.take(k));
            }
        }
    }
}

/// A sanitized tool result is a prefix of the text it was cut from, takes at most
/// `max_bytes` bytes of UTF-8, is the longest such prefix (one more character
/// would not fit), and a result that fits already is kept whole.
pub proof fn law_sanitized_fits(s: Seq<char>, max_bytes: usize)
    ensures
        s.len() >= sanitized(s, max_bytes as int).len(),
        sanitized(s, max_bytes as int) == s.take(sanitized(s, max_bytes as int).len() as int),
        encode_utf8(sanitized(s, max_bytes as int)).len() <= max_bytes,
        sanitized(s, max_bytes as int).len() < s.len() ==> encode_utf8(
            s.take(sanitized(s, max_bytes as int).len() as int + 1),
        ).len() > max_bytes,
        encode_utf8(s).len() <= max_bytes ==> sanitized(s, max_bytes as int) == s,
{
    lemma_fit_count_bounds(s, max_bytes as int);
    lemma_fit_count_maximal(s, max_bytes as int);
    let k = fit_count(s, max_bytes as int) as int;
    assert(s.take(k).len() == k);
    assert(s.take(k).take(k) =~= s.take(k));
    if encode_utf8(s).len() <= max_bytes {
        assert(s.take(s.len() as int) =~= s);
    }
}

/// A tool message with its content sanitized against `max_bytes`; other
/// messages are left as they are.
pub open spec fn sanitize_tool_message(m: MessageView, max_bytes: usize) -> MessageView {
    match m {
        MessageView::Tool { tool_call_id, content } => MessageView::Tool {
            tool_call_id,
            content: sanitized(content, max_bytes as int),
        },
        _ => m,
    }
}

/// Every tool message of `msgs` sanitized against `max_bytes`.
pub open spec fn sanitize_tool_messages(msgs: Seq<MessageView>, max_bytes: usize) -> Seq<
    MessageView,
> {
    msgs.map_values(|m: MessageView| sanitize_tool_message(m, max_bytes))
}

proof fn lemma_sanitize_keeps_asking(m: MessageView, max_bytes: usize, id: Seq<char>)
    ensures
        answers_call(sanitize_tool_message(m, max_bytes), id) == answers_call(m, id),
        (m is Assistant) ==> sanitize_tool_message(m, max_bytes) == m,
{
}

proof fn lemma_attach_commutes_with_sanitize(
    msgs: Seq<MessageView>,
    id: Seq<char>,
    r: Seq<char>,
    max_bytes: usize,
)
    ensures
        attach_reasoning(sanitize_tool_messages(msgs, max_bytes), id, r) == sanitize_tool_messages(
            attach_reasoning(msgs, id, r),
            max_bytes,
        ),
{
    let sm = sanitize_tool_messages(msgs, max_bytes);
    assert forall|i: int| is_last_asker(sm, id, i) == is_last_asker(msgs, id, i) by {
        if 0 <= i < msgs.len() {
            assert(sm[i] == sanitize_tool_message(msgs[i], max_bytes));
            lemma_sanitize_keeps_asking(msgs[i], max_bytes, id);
            assert forall|j: int| i < j < msgs.len() implies answers_call(#[trigger] sm[j], id)
                == answers_call(msgs[j], id) by {
                assert(sm[j] == sanitize_tool_message(msgs[j], max_bytes));
                lemma_sanitize_keeps_asking(msgs[j], max_bytes, id);
            }
            if is_last_asker(msgs, id, i) {
                assert forall|j: int| i < j < sm.len() implies !answers_call(#[trigger] sm[j], id) by {
                    assert(sm[j] == sanitize_tool_message(msgs[j], max_bytes));
                    lemma_sanitize_keeps_asking(msgs[j], max_bytes, id);
                }
            }
            if is_last_asker(sm, id, i) {
                assert forall|j: int| i < j < msgs.len() implies !answers_call(#[trigger] msgs[j], id) by {
                    assert(sm[j] == sanitize_tool_message(msgs[j], max_bytes));
                    lemma_sanitize_keeps_asking(msgs[j], max_bytes, id);
                }
            }
        }
    }
    if exists|i: int| is_last_asker(msgs, id, i) {
        let i = choose|i: int| is_last_asker(msgs, id, i);
        assert(is_last_asker(sm, id, i));
        let i2 = choose|i: int| is_last_asker(sm, id, i);
        assert forall|a: int, b: int|
            is_last_asker(msgs, id, a) && is_last_asker(msgs, id, b) implies a == b by {
            if a < b {
                assert(answers_call(msgs[b], id));
            } else if b < a {
                assert(answers_call(msgs[a], id));
            }
        }
        assert(i2 == i);
        assert(msgs[i] is Assistant);
        assert(with_reasoning(msgs[i], r) is Assistant);
        assert(attach_reasoning(sm, id, r) =~= sanitize_tool_messages(
            attach_reasoning(msgs, id, r),
            max_bytes,
        ));
    } else {
        assert(!exists|i: int| is_last_asker(sm, id, i));
    }
}

/// The byte limit is the only difference between a conversion with a
/// tool-result limit and one without: the messages are the same, except that
/// each tool message's content is sanitized against the limit.
pub proof fn law_limit_only_sanitizes_tool_results(
    vals: Seq<Json>,
    filter_orphans: bool,
    max_bytes: usize,
    media: SessionMediaView,
)
    ensures
        converted(vals, filter_orphans, Some(max_bytes), media) == sanitize_tool_messages(
            converted(vals, filter_orphans, None, media),
            max_bytes,
        ),
        run(vals, filter_orphans, Some(max_bytes), media).pending == run(
            vals,
            filter_orphans,
            None,
            media,
        ).pending,
    decreases vals.len(),
{
    if vals.len() == 0 {
        assert(sanitize_tool_messages(Seq::empty(), max_bytes) =~= Seq::<MessageView>::empty());
    } else {
        let prev = vals.drop_last();
        let v = vals.last();
        law_limit_only_sanitizes_tool_results(prev, filter_orphans, max_bytes, media);
        let a = run(prev, filter_orphans, Some(max_bytes), media);
        let b = run(prev, filter_orphans, None, media);
        assert(a.messages == sanitize_tool_messages(b.messages, max_bytes));
        let sa = step(a, v, filter_orphans, Some(max_bytes), media);
        let sb = step(b, v, filter_orphans, None, media);
        assert(sa.pending == sb.pending);
        match crate::convert::role_of(v) {
            None => {},
            Some(role) => {
                if role == "tool_result"@ {
                    match crate::convert::reasoning_of(v) {
                        Some(r) => {
                            lemma_attach_commutes_with_sanitize(
                                b.messages,
                                crate::convert::str_or_empty(v, "tool_call_id"@),
                                r,
                                max_bytes,
                            );
                        },
                        None => {},
                    }
                }
            },
        }
        assert(sa.messages =~= sanitize_tool_messages(sb.messages, max_bytes));
    }
}

/// With a tool-result limit, every tool message takes at most that many bytes
/// of UTF-8.
pub proof fn law_limited_tool_results_fit(
    vals: Seq<Json>,
    filter_orphans: bool,
    max_bytes: usize,
    media: SessionMediaView,
)
    ensures
        forall|i: int|
            0 <= i < converted(vals, filter_orphans, Some(max_bytes), media).len() ==> match #[trigger] converted(
                vals,
                filter_orphans,
                Some(max_bytes),
                media,
            )[i] {
                MessageView::Tool { content, .. } => encode_utf8(content).len() <= max_bytes,
                _ => true,
            },
{
    law_limit_only_sanitizes_tool_results(vals, filter_orphans, max_bytes, media);
    let a = converted(vals, filter_orphans, Some(max_bytes), media);
    let b = converted(vals, filter_orphans, None, media);
    assert forall|i: int| 0 <= i < a.len() implies match #[trigger] a[i] {
        MessageView::Tool { content, .. } => encode_utf8(content).len() <= max_bytes,
        _ => true,
    } by {
        assert(a[i] == sanitize_tool_message(b[i], max_bytes));
        if let MessageView::Tool { content, .. } = b[i] {
            law_sanitized_fits(content, max_bytes);
        }
    }
}

/// What attaching a reasoning does: the same number of messages, and every
/// message unchanged but the last one that asks for the tool call, which gets
/// the reasoning unless it has one already.
pub proof fn law_attach_reasoning_touches_one_asker(
    msgs: Seq<MessageView>,
    id: Seq<char>,
    r: Seq<char>,
)
    ensures
        attach_reasoning(msgs, id, r).len() == msgs.len(),
        forall|k: int|
            0 <= k < msgs.len() ==> #[trigger] attach_reasoning(msgs, id, r)[k] == msgs[k] || (
            is_last_asker(msgs, id, k) && attach_reasoning(msgs, id, r)[k] == with_reasoning(
                msgs[k],
                r,
            )),
        forall|k: int|
            0 <= k < msgs.len() && (msgs[k] matches MessageView::Assistant { reasoning, .. }
                && reasoning is Some) ==> #[trigger] attach_reasoning(msgs, id, r)[k] == msgs[k],
        forall|k: int|
            0 <= k < msgs.len() && !(msgs[k] is Assistant) ==> #[trigger] attach_reasoning(
                msgs,
                id,
                r,
            )[k] == msgs[k],
{
    if exists|i: int| is_last_asker(msgs, id, i) {
        let i = choose|i: int| is_last_asker(msgs, id, i);
        assert(answers_call(msgs[i], id));
    }
}

proof fn lemma_attach_keeps_calls_and_tools(msgs: Seq<MessageView>, id: Seq<char>, r: Seq<char>)
    ensures
        attach_reasoning(msgs, id, r).len() == msgs.len(),
        forall|k: int, x: Seq<char>|
            0 <= k < msgs.len() ==> #[trigger] answers_call(attach_reasoning(msgs, id, r)[k], x)
                == answers_call(msgs[k], x),
        forall|k: int|
            0 <= k < msgs.len() ==> ((#[trigger] attach_reasoning(msgs, id, r)[k]) is Tool
                || msgs[k] is Tool) ==> attach_reasoning(msgs, id, r)[k] == msgs[k],
{
    law_attach_reasoning_touches_one_asker(msgs, id, r);
    let a = attach_reasoning(msgs, id, r);
    assert forall|k: int, x: Seq<char>| 0 <= k < msgs.len() implies #[trigger] answers_call(a[k], x)
        == answers_call(msgs[k], x) by {
        if a[k] != msgs[k] {
            assert(msgs[k] is Assistant);
        }
    }
}

/// Every tool message of `msgs` answers a tool call that an earlier
/// assistant message asked for.
pub open spec fn tools_answer_earlier_calls(msgs: Seq<MessageView>) -> bool {
    forall|i: int|
        0 <= i < msgs.len() && (#[trigger] msgs[i]) is Tool ==> exists|j: int|
            0 <= j < i && answers_call(msgs[j], msgs[i]->tool_call_id)
}

/// Every pending id was asked for by one of `msgs`.
pub open spec fn pending_asked(msgs: Seq<MessageView>, pending: Set<Seq<char>>) -> bool {
    forall|id: Seq<char>|
        #[trigger] pending.contains(id) ==> exists|j: int|
            0 <= j < msgs.len() && answers_call(msgs[j], id)
}

proof fn lemma_filtered_run(vals: Seq<Json>, limit: Option<usize>, media: SessionMediaView)
    ensures
        tools_answer_earlier_calls(run(vals, true, limit, media).messages),
        pending_asked(run(vals, true, limit, media).messages, run(vals, true, limit, media).pending),
    decreases vals.len(),
{
    if vals.len() > 0 {
        let prev = vals.drop_last();
        let v = vals.last();
        lemma_filtered_run(prev, limit, media);
        let st = run(prev, true, limit, media);
        let nx = step(st, v, true, limit, media);
        let m = st.messages;
        match role_of(v) {
            None => {},
            Some(role) => {
                if role == "system"@ || role == "user"@ {
                    assert(tools_answer_earlier_calls(nx.messages)) by {
                        assert forall|i: int|
                            0 <= i < nx.messages.len() && (#[trigger] nx.messages[i]) is Tool implies exists|j: int|
                            0 <= j < i && answers_call(nx.messages[j], nx.messages[i]->tool_call_id) by {
                            assert(nx.messages[i] == m[i]);
                            let j = choose|j: int| 0 <= j < i && answers_call(m[j], m[i]->tool_call_id);
                            assert(nx.messages[j] == m[j]);
                        }
                    }
                    assert(pending_asked(nx.messages, nx.pending)) by {
                        assert forall|id: Seq<char>| #[trigger] nx.pending.contains(id) implies exists|j: int|
                            0 <= j < nx.messages.len() && answers_call(nx.messages[j], id) by {
                            let j = choose|j: int| 0 <= j < m.len() && answers_call(m[j], id);
                            assert(nx.messages[j] == m[j]);
                        }
                    }
                } else if role == "assistant"@ {
                    let am = crate::convert::assistant_message(v);
                    assert(tools_answer_earlier_calls(nx.messages)) by {
                        assert forall|i: int|
                            0 <= i < nx.messages.len() && (#[trigger] nx.messages[i]) is Tool implies exists|j: int|
                            0 <= j < i && answers_call(nx.messages[j], nx.messages[i]->tool_call_id) by {
                            assert(nx.messages[i] == m[i]);
                            let j = choose|j: int| 0 <= j < i && answers_call(m[j], m[i]->tool_call_id);
                            assert(nx.messages[j] == m[j]);
                        }
                    }
                    assert(pending_asked(nx.messages, nx.pending)) by {
                        assert forall|id: Seq<char>| #[trigger] nx.pending.contains(id) implies exists|j: int|
                            0 <= j < nx.messages.len() && answers_call(nx.messages[j], id) by {
                            if st.pending.contains(id) {
                                let j = choose|j: int| 0 <= j < m.len() && answers_call(m[j], id);
                                assert(nx.messages[j] == m[j]);
                            } else {
                                let calls = crate::convert::assistant_tool_calls(v);
                                let k = choose|k: int| 0 <= k < calls.len() && calls[k].id == id;
                                assert(nx.messages[m.len() as int] == am);
                                assert(answers_call(am, id));
                            }
                        }
                    }
                } else if role == "tool"@ || role == "tool_result"@ {
                    let id = str_or_empty(v, "tool_call_id"@);
                    if !st.pending.contains(id) {
                        assert(nx.messages == m);
                        assert(pending_asked(nx.messages, nx.pending));
                    } else {
                        let m1 = if role == "tool"@ {
                            m
                        } else {
                            match reasoning_of(v) {
                                Some(r) => attach_reasoning(m, id, r),
                                None => m,
                            }
                        };
                        assert(m1.len() == m.len() && (forall|k: int, x: Seq<char>|
                            0 <= k < m.len() ==> #[trigger] answers_call(m1[k], x) == answers_call(m[k], x))
                            && (forall|k: int|
                            0 <= k < m.len() ==> ((#[trigger] m1[k]) is Tool || m[k] is Tool) ==> m1[k]
                                == m[k])) by {
                            if role != "tool"@ {
                                match reasoning_of(v) {
                                    Some(r) => lemma_attach_keeps_calls_and_tools(m, id, r),
                                    None => {},
                                }
                            }
                        }
                        assert(nx.messages =~= m1.push(nx.messages.last()));
                        let asker = choose|j: int| 0 <= j < m.len() && answers_call(m[j], id);
                        assert(answers_call(m1[asker], id));
                        assert(tools_answer_earlier_calls(nx.messages)) by {
                            assert forall|i: int|
                                0 <= i < nx.messages.len() && (#[trigger] nx.messages[i]) is Tool implies exists|j: int|
                                0 <= j < i && answers_call(nx.messages[j], nx.messages[i]->tool_call_id) by {
                                if i < m.len() {
                                    assert(nx.messages[i] == m1[i]);
                                    assert(m1[i] == m[i]);
                                    let j = choose|j: int|
                                        0 <= j < i && answers_call(m[j], m[i]->tool_call_id);
                                    assert(nx.messages[j] == m1[j]);
                                    assert(answers_call(m1[j], m[i]->tool_call_id));
                                } else {
                                    assert(nx.messages[asker] == m1[asker]);
                                }
                            }
                        }
                        assert(pending_asked(nx.messages, nx.pending)) by {
                            assert forall|x: Seq<char>| #[trigger] nx.pending.contains(x) implies exists|j: int|
                                0 <= j < nx.messages.len() && answers_call(nx.messages[j], x) by {
                                let j = choose|j: int| 0 <= j < m.len() && answers_call(m[j], x);
                                assert(nx.messages[j] == m1[j]);
                                assert(answers_call(m1[j], x));
                            }
                        }
                    }
                } else {
                }
            },
        }
    }
}

/// With orphan filtering (persisted session messages), every tool message
/// answers a tool call that an earlier assistant message asked for.
pub proof fn law_no_orphan_tool_results(vals: Seq<Json>, limit: Option<usize>, media: SessionMediaView)
    ensures
        tools_answer_earlier_calls(converted(vals, true, limit, media)),
{
    lemma_filtered_run(vals, limit, media);
}

pub(crate) proof fn reveal_role_names()
    ensures
        "system"@ != "user"@,
        "system"@ != "assistant"@,
        "system"@ != "tool"@,
        "system"@ != "tool_result"@,
        "user"@ != "assistant"@,
        "user"@ != "tool"@,
        "user"@ != "tool_result"@,
        "assistant"@ != "tool"@,
        "assistant"@ != "tool_result"@,
        "tool"@ != "tool_result"@,
{
    reveal_strlit("system");
    reveal_strlit("user");
    reveal_strlit("assistant");
    reveal_strlit("tool");
    reveal_strlit("tool_result");
    assert("system"@[0] != "user"@[0]);
    assert("system"@[0] != "assistant"@[0]);
    assert("system"@[0] != "tool"@[0]);
    assert("system"@[0] != "tool_result"@[0]);
    assert("user"@[0] != "assistant"@[0]);
    assert("user"@[0] != "tool"@[0]);
    assert("user"@[0] != "tool_result"@[0]);
    assert("assistant"@[0] != "tool"@[0]);
    assert("assistant"@[0] != "tool_result"@[0]);
    assert("tool"@.len() != "tool_result"@.len());
}

/// The tool messages of `msgs`, in order.
pub open spec fn tool_messages(msgs: Seq<MessageView>) -> Seq<MessageView>
    decreases msgs.len(),
{
    if msgs.len() == 0 {
        Seq::empty()
    } else {
        let prev = tool_messages(msgs.drop_last());
        if msgs.last() is Tool {
            prev.push(msgs.last())
        } else {
            prev
        }
    }
}

/// The tool message that a stored `tool` or `tool_result` entry stands for.
pub open spec fn entry_tool_message(v: Json, limit: Option<usize>) -> Option<MessageView> {
    match role_of(v) {
        Some(role) => if role == "tool"@ {
            Some(
                MessageView::Tool {
                    tool_call_id: str_or_empty(v, "tool_call_id"@),
                    content: limited(tool_content(v), limit),
                },
            )
        } else if role == "tool_result"@ {
            Some(
                MessageView::Tool {
                    tool_call_id: str_or_empty(v, "tool_call_id"@),
                    content: limited(tool_result_content(v), limit),
                },
            )
        } else {
            None
        },
        None => None,
    }
}

/// The tool messages that the `tool` and `tool_result` entries of `vals`
/// stand for, in order.
pub open spec fn entry_tool_messages(vals: Seq<Json>, limit: Option<usize>) -> Seq<MessageView>
    decreases vals.len(),
{
    if vals.len() == 0 {
        Seq::empty()
    } else {
        let prev = entry_tool_messages(vals.drop_last(), limit);
        match entry_tool_message(vals.last(), limit) {
            Some(m) => prev.push(m),
            None => prev,
        }
    }
}

proof fn lemma_tool_messages_agree(a: Seq<MessageView>, b: Seq<MessageView>)
    requires
        a.len() == b.len(),
        forall|k: int| 0 <= k < a.len() ==> ((#[trigger] a[k]) is Tool || b[k] is Tool) ==> a[k] == b[k],
    ensures
        tool_messages(a) == tool_messages(b),
    decreases a.len(),
{
    if a.len() > 0 {
        let (a2, b2) = (a.drop_last(), b.drop_last());
        assert forall|k: int|
            0 <= k < a2.len() && ((#[trigger] a2[k]) is Tool || b2[k] is Tool) implies a2[k]
                == b2[k] by {
            assert(a2[k] == a[k]);
            assert(b2[k] == b[k]);
        }
        lemma_tool_messages_agree(a2, b2);
        assert(a.last() == a[a.len() - 1]);
        assert(b.last() == b[b.len() - 1]);
    }
}

/// Without orphan filtering (provider-bound messages), the tool messages of a
/// conversion are exactly those that the input's `tool` and `tool_result`
/// entries stand for, in the same order.
pub proof fn law_provider_keeps_tool_messages(
    vals: Seq<Json>,
    limit: Option<usize>,
    media: SessionMediaView,
)
    ensures
        tool_messages(converted(vals, false, limit, media)) == entry_tool_messages(vals, limit),
    decreases vals.len(),
{
    reveal_role_names();
    if vals.len() > 0 {
        let prev = vals.drop_last();
        let v = vals.last();
        law_provider_keeps_tool_messages(prev, limit, media);
        let st = run(prev, false, limit, media);
        let nx = step(st, v, false, limit, media);
        let m = st.messages;
        match role_of(v) {
            None => {},
            Some(role) => {
                if role == "tool_result"@ {
                    let id = str_or_empty(v, "tool_call_id"@);
                    let m1 = match reasoning_of(v) {
                        Some(r) => attach_reasoning(m, id, r),
                        None => m,
                    };
                    assert(tool_messages(m1) == tool_messages(m)) by {
                        match reasoning_of(v) {
                            Some(r) => {
                                lemma_attach_keeps_calls_and_tools(m, id, r);
                                lemma_tool_messages_agree(m1, m);
                            },
                            None => {},
                        }
                    }
                    assert(nx.messages.drop_last() =~= m1);
                } else if role == "system"@ || role == "user"@ || role == "assistant"@ || role == "tool"@ {
                    assert(nx.messages.drop_last() =~= m);
                }
            },
        }
    }
}

/// A stored value whose role the conversion acts on.
pub open spec fn has_known_role(v: Json) -> bool {
    match role_of(v) {
        Some(r) => r == "system"@ || r == "user"@ || r == "assistant"@ || r == "tool"@ || r
            == "tool_result"@,
        None => false,
    }
}

/// A stored message without a string role, with the role `notice`, or with
/// an unknown role changes nothing: no message, no pending tool call.
pub proof fn law_unknown_roles_skipped(
    vals: Seq<Json>,
    v: Json,
    filter_orphans: bool,
    limit: Option<usize>,
    media: SessionMediaView,
)
    requires
        !has_known_role(v),
    ensures
        run(vals.push(v), filter_orphans, limit, media) == run(vals, filter_orphans, limit, media),
{
    assert(vals.push(v).drop_last() =~= vals);
}

/// Each stored message gives at most one typed message, so a conversion never
/// gives more messages than it was handed.
pub proof fn law_at_most_one_message_each(
    vals: Seq<Json>,
    filter_orphans: bool,
    limit: Option<usize>,
    media: SessionMediaView,
)
    ensures
        converted(vals, filter_orphans, limit, media).len() <= vals.len(),
    decreases vals.len(),
{
    if vals.len() > 0 {
        let prev = vals.drop_last();
        let v = vals.last();
        law_at_most_one_message_each(prev, filter_orphans, limit, media);
        let st = run(prev, filter_orphans, limit, media);
        if role_of(v) == Some("tool_result"@) {
            match reasoning_of(v) {
                Some(r) => law_attach_reasoning_touches_one_asker(
                    st.messages,
                    str_or_empty(v, "tool_call_id"@),
                    r,
                ),
                None => {},
            }
        }
    }
}

proof fn lemma_find_separator(rest: Seq<char>, len: int, k: int)
    requires
        0 <= k <= len,
        len + 8 <= rest.len(),
        rest.subrange(len, len + 8) == base64_separator(),
        forall|i: int| 0 <= i < len ==> rest[i] != ',',
    ensures
        find_from(rest, base64_separator(), k) == Some(len),
    decreases len - k,
{
    if k < len {
        let sep = base64_separator();
        assert(rest.subrange(k, k + 8)[7] == rest[k + 7]);
        if k + 7 >= len {
            assert(rest[k + 7] == rest.subrange(len, len + 8)[k + 7 - len]);
        }
        assert(rest.subrange(k, k + 8) != sep);
        lemma_find_separator(rest, len, k + 1);
    }
}

/// A base64 data URI is taken apart into the media type and the payload it
/// was made of, whenever the media type holds no comma.
pub proof fn law_data_uri_round_trip(media_type: Seq<char>, data: Seq<char>)
    requires
        !media_type.contains(','),
    ensures
        data_uri_parts(data_prefix() + media_type + base64_separator() + data) == Some(
            (media_type, data),
        ),
{
    let url = data_prefix() + media_type + base64_separator() + data;
    let rest = url.skip(5);
    let len = media_type.len() as int;
    assert(url.take(5) =~= data_prefix());
    assert(rest =~= media_type + base64_separator() + data);
    assert(rest.subrange(len, len + 8) =~= base64_separator());
    assert forall|i: int| 0 <= i < len implies rest[i] != ',' by {
        assert(rest[i] == media_type[i]);
    }
    lemma_find_separator(rest, len, 0);
    assert(rest.take(len) =~= media_type);
    assert(rest.skip(len + 8) =~= data);
}

proof fn lemma_metadata_members(tc: Json, keys: Seq<Seq<char>>)
    ensures
        forall|i: int|
            0 <= i < metadata_members(tc, keys).len() ==> keys.contains(
                (#[trigger] metadata_members(tc, keys)[i]).0,
            ) && metadata_value(tc, metadata_members(tc, keys)[i].0) == Some(
                metadata_members(tc, keys)[i].1,
            ),
        (metadata_members(tc, keys).len() == 0) == (forall|k: Seq<char>|
            #[trigger] keys.contains(k) ==> metadata_value(tc, k) is None),
    decreases keys.len(),
{
    if keys.len() > 0 {
        let prev = keys.drop_last();
        lemma_metadata_members(tc, prev);
        let m = metadata_members(tc, keys);
        let pm = metadata_members(tc, prev);
        assert forall|i: int| 0 <= i < m.len() implies keys.contains((#[trigger] m[i]).0) && metadata_value(
            tc,
            m[i].0,
        ) == Some(m[i].1) by {
            if i < pm.len() {
                assert(m[i] == pm[i]);
                let j = choose|j: int| 0 <= j < prev.len() && prev[j] == pm[i].0;
                assert(keys[j] == prev[j]);
            } else {
                assert(keys[keys.len() - 1] == keys.last());
            }
        }
        if m.len() == 0 {
            assert forall|k: Seq<char>| #[trigger] keys.contains(k) implies metadata_value(tc, k) is None by {
                let j = choose|j: int| 0 <= j < keys.len() && keys[j] == k;
                if j < prev.len() {
                    assert(prev[j] == k);
                    assert(prev.contains(k));
                }
            }
        } else {
            if pm.len() == 0 {
                assert(keys.contains(keys.last()));
            } else {
                let k0 = pm[0].0;
                assert(prev.contains(k0));
                let j = choose|j: int| 0 <= j < prev.len() && prev[j] == k0;
                assert(keys[j] == k0);
                assert(keys.contains(k0));
            }
        }
    }
}

/// The metadata of a tool call holds only allowlisted keys, each with the
/// value found for it; there is none exactly when the call is no object or
/// holds none of the keys.
pub proof fn law_metadata_keys_allowlisted(tc: Json)
    ensures
        match tool_call_metadata(tc) {
            Some(m) => m.len() > 0 && forall|i: int|
                0 <= i < m.len() ==> metadata_keys().contains((#[trigger] m[i]).0) && metadata_value(
                    tc,
                    m[i].0,
                ) == Some(m[i].1),
            None => !(tc is Object) || forall|k: Seq<char>|
                #[trigger] metadata_keys().contains(k) ==> metadata_value(tc, k) is None,
        },
{
    lemma_metadata_members(tc, metadata_keys());
}

proof fn lemma_after_last_dot_lower(s: Seq<char>)
    ensures
        after_last_dot(ascii_lower(s)) == ascii_lower(after_last_dot(s)),
    decreases s.len(),
{
    if s.len() > 0 {
        let t = ascii_lower(s);
        assert(t.drop_last() =~= ascii_lower(s.drop_last()));
        assert(t.last() == ascii_lower_char(s.last()));
        lemma_after_last_dot_lower(s.drop_last());
        if s.last() == '.' {
            assert(ascii_lower(Seq::<char>::empty()) =~= Seq::<char>::empty());
        } else {
            assert(ascii_lower_char(s.last()) != '.');
            assert(ascii_lower(after_last_dot(s.drop_last()).push(s.last())) =~= ascii_lower(
                after_last_dot(s.drop_last()),
            ).push(ascii_lower_char(s.last())));
        }
    }
}

/// The MIME type guessed from a file name does not depend on the ASCII case
/// of the name.
pub proof fn law_mime_ignores_case(filename: Seq<char>)
    ensures
        image_mime_of_filename(ascii_lower(filename)) == image_mime_of_filename(filename),
{
    lemma_after_last_dot_lower(filename);
    lemma_after_last_dot_lower(ascii_lower(filename));
    let e = after_last_dot(filename);
    assert(ascii_lower(ascii_lower(e)) =~= ascii_lower(e));
}

/// The MIME type guessed from a file name is always an image type.
pub proof fn law_mime_is_image(filename: Seq<char>)
    ensures
        image_mime_of_filename(filename).take(6) == "image/"@,
{
    reveal_strlit("image/");
    reveal_strlit("image/png");
    reveal_strlit("image/jpeg");
    reveal_strlit("image/gif");
    reveal_strlit("image/webp");
    reveal_strlit("image/svg+xml");
    assert("image/png"@.take(6) =~= "image/"@);
    assert("image/jpeg"@.take(6) =~= "image/"@);
    assert("image/gif"@.take(6) =~= "image/"@);
    assert("image/webp"@.take(6) =~= "image/"@);
    assert("image/svg+xml"@.take(6) =~= "image/"@);
}

/// The members that stored messages carry besides their content (timing,
/// model, token counts, channel) and that the conversion drops.
pub open spec fn is_dropped_member(k: Seq<char>) -> bool {
    ||| k == "created_at"@
    ||| k == "model"@
    ||| k == "provider"@
    ||| k == "inputTokens"@
    ||| k == "outputTokens"@
    ||| k == "channel"@
}

/// Two stored messages that agree on every member but the dropped ones.
pub open spec fn agree_but_dropped(v1: Json, v2: Json) -> bool {
    forall|k: Seq<char>| !is_dropped_member(k) ==> #[trigger] json_get(v1, k) == json_get(v2, k)
}

proof fn lemma_read_members_kept()
    ensures
        !is_dropped_member("role"@),
        !is_dropped_member("content"@),
        !is_dropped_member("name"@),
        !is_dropped_member("documents"@),
        !is_dropped_member("tool_calls"@),
        !is_dropped_member("reasoning"@),
        !is_dropped_member("tool_call_id"@),
        !is_dropped_member("error"@),
        !is_dropped_member("result"@),
{
    reveal_strlit("created_at");
    reveal_strlit("model");
    reveal_strlit("provider");
    reveal_strlit("inputTokens");
    reveal_strlit("outputTokens");
    reveal_strlit("channel");
    reveal_strlit("role");
    reveal_strlit("content");
    reveal_strlit("name");
    reveal_strlit("documents");
    reveal_strlit("tool_calls");
    reveal_strlit("reasoning");
    reveal_strlit("tool_call_id");
    reveal_strlit("error");
    reveal_strlit("result");
    assert("content"@[1] != "channel"@[1]);
    assert("tool_calls"@[0] != "created_at"@[0]);
    assert("tool_call_id"@[0] != "outputTokens"@[0]);
    assert("error"@[0] != "model"@[0]);
    assert("name"@[0] != "role"@[0]);
    assert("documents"@[0] != "reasoning"@[0]);
    assert("result"@.len() == 6);
    assert("provider"@[0] != "result"@[0]);
}

proof fn lemma_step_reads_only_kept_members(
    st: crate::convert::ConversionState,
    v1: Json,
    v2: Json,
    filter_orphans: bool,
    limit: Option<usize>,
    media: SessionMediaView,
)
    requires
        agree_but_dropped(v1, v2),
    ensures
        step(st, v1, filter_orphans, limit, media) == step(st, v2, filter_orphans, limit, media),
{
    lemma_read_members_kept();
    assert(json_get(v1, "role"@) == json_get(v2, "role"@));
    assert(json_get(v1, "content"@) == json_get(v2, "content"@));
    assert(json_get(v1, "name"@) == json_get(v2, "name"@));
    assert(json_get(v1, "documents"@) == json_get(v2, "documents"@));
    assert(json_get(v1, "tool_calls"@) == json_get(v2, "tool_calls"@));
    assert(json_get(v1, "reasoning"@) == json_get(v2, "reasoning"@));
    assert(json_get(v1, "tool_call_id"@) == json_get(v2, "tool_call_id"@));
    assert(json_get(v1, "error"@) == json_get(v2, "error"@));
    assert(json_get(v1, "result"@) == json_get(v2, "result"@));
    assert(crate::user::user_message(v1, media) == crate::user::user_message(v2, media));
    assert(crate::convert::assistant_message(v1) == crate::convert::assistant_message(v2));
    assert(crate::convert::tool_content(v1) == crate::convert::tool_content(v2));
    assert(crate::convert::tool_result_content(v1) == crate::convert::tool_result_content(v2));
    assert(reasoning_of(v1) == reasoning_of(v2));
}

/// The members that stored messages carry besides their content
/// (`created_at`, `model`, `provider`, `inputTokens`, `outputTokens`,
/// `channel`) change nothing: messages that agree on every other member
/// convert alike.
pub proof fn law_dropped_members_change_nothing(
    vals1: Seq<Json>,
    vals2: Seq<Json>,
    filter_orphans: bool,
    limit: Option<usize>,
    media: SessionMediaView,
)
    requires
        vals1.len() == vals2.len(),
        forall|i: int| 0 <= i < vals1.len() ==> agree_but_dropped(#[trigger] vals1[i], vals2[i]),
    ensures
        run(vals1, filter_orphans, limit, media) == run(vals2, filter_orphans, limit, media),
    decreases vals1.len(),
{
    if vals1.len() > 0 {
        let (p1, p2) = (vals1.drop_last(), vals2.drop_last());
        assert forall|i: int| 0 <= i < p1.len() implies agree_but_dropped(#[trigger] p1[i], p2[i]) by {
            assert(p1[i] == vals1[i]);
            assert(p2[i] == vals2[i]);
        }
        law_dropped_members_change_nothing(p1, p2, filter_orphans, limit, media);
        assert(agree_but_dropped(vals1[vals1.len() - 1], vals2[vals2.len() - 1]));
        lemma_step_reads_only_kept_members(
            run(p1, filter_orphans, limit, media),
            vals1.last(),
            vals2.last(),
            filter_orphans,
            limit,
            media,
        );
    }
}

/// The member `key` under `extra_content.google` of a tool call.
pub open spec fn google_member(tc: Json, key: Seq<char>) -> Option<Json> {
    match json_get(tc, "extra_content"@) {
        Some(e) => nested_member(e, "google"@, key),
        None => None,
    }
}

/// Two tool calls that are both objects or both not, and that agree on every
/// allowlisted key at their top level, under `metadata` and under
/// `extra_content.google`.
pub open spec fn agree_on_metadata_keys(tc1: Json, tc2: Json) -> bool {
    &&& (tc1 is Object <==> tc2 is Object)
    &&& forall|k: Seq<char>|
        #[trigger] metadata_keys().contains(k) ==> json_get(tc1, k) == json_get(tc2, k)
            && nested_member(tc1, "metadata"@, k) == nested_member(tc2, "metadata"@, k)
            && google_member(tc1, k) == google_member(tc2, k)
}

proof fn lemma_metadata_members_agree(tc1: Json, tc2: Json, keys: Seq<Seq<char>>)
    requires
        forall|k: Seq<char>| #[trigger] keys.contains(k) ==> metadata_value(tc1, k) == metadata_value(tc2, k),
    ensures
        metadata_members(tc1, keys) == metadata_members(tc2, keys),
    decreases keys.len(),
{
    if keys.len() > 0 {
        let prev = keys.drop_last();
        assert forall|k: Seq<char>| #[trigger] prev.contains(k) implies metadata_value(tc1, k)
            == metadata_value(tc2, k) by {
            let j = choose|j: int| 0 <= j < prev.len() && prev[j] == k;
            assert(keys[j] == k);
            assert(keys.contains(k));
        }
        lemma_metadata_members_agree(tc1, tc2, prev);
        assert(keys[keys.len() - 1] == keys.last());
        assert(keys.contains(keys.last()));
    }
}

/// The metadata of a tool call depends only on its allowlisted keys: tool
/// calls that agree on those keys at the top level, under `metadata` and
/// under `extra_content.google` have the same metadata, whatever else they
/// hold.
pub proof fn law_metadata_reads_only_allowlisted_keys(tc1: Json, tc2: Json)
    requires
        agree_on_metadata_keys(tc1, tc2),
    ensures
        tool_call_metadata(tc1) == tool_call_metadata(tc2),
{
    assert forall|k: Seq<char>| #[trigger] metadata_keys().contains(k) implies metadata_value(tc1, k)
        == metadata_value(tc2, k) by {
        assert(json_get(tc1, k) == json_get(tc2, k));
        assert(nested_member(tc1, "metadata"@, k) == nested_member(tc2, "metadata"@, k));
        assert(google_member(tc1, k) == google_member(tc2, k));
    }
    lemma_metadata_members_agree(tc1, tc2, metadata_keys());
}

pub(crate) proof fn lemma_last_asker_unique(msgs: Seq<MessageView>, id: Seq<char>, a: int, b: int)
    requires
        is_last_asker(msgs, id, a),
        is_last_asker(msgs, id, b),
    ensures
        a == b,
{
    if a < b {
        assert(answers_call(msgs[b], id));
    } else if b < a {
        assert(answers_call(msgs[a], id));
    }
}

proof fn lemma_attach_last(msgs: Seq<MessageView>, id: Seq<char>, r: Seq<char>)
    requires
        msgs.len() > 0,
    ensures
        answers_call(msgs.last(), id) ==> attach_reasoning(msgs, id, r) == msgs.drop_last().push(
            with_reasoning(msgs.last(), r),
        ),
        !answers_call(msgs.last(), id) ==> attach_reasoning(msgs, id, r) == attach_reasoning(
            msgs.drop_last(),
            id,
            r,
        ).push(msgs.last()),
{
    let n = msgs.len() - 1;
    let prev = msgs.drop_last();
    if answers_call(msgs.last(), id) {
        assert(is_last_asker(msgs, id, n));
        let i = choose|i: int| is_last_asker(msgs, id, i);
        lemma_last_asker_unique(msgs, id, i, n);
        assert(attach_reasoning(msgs, id, r) =~= prev.push(with_reasoning(msgs.last(), r)));
    } else {
        assert forall|i: int| is_last_asker(msgs, id, i) == is_last_asker(prev, id, i) by {
            if 0 <= i < n {
                assert(msgs[i] == prev[i]);
                if is_last_asker(prev, id, i) {
                    assert forall|j: int| i < j < msgs.len() implies !answers_call(#[trigger] msgs[j], id) by {
                        if j < n {
                            assert(msgs[j] == prev[j]);
                        }
                    }
                }
                if is_last_asker(msgs, id, i) {
                    assert forall|j: int| i < j < prev.len() implies !answers_call(#[trigger] prev[j], id) by {
                        assert(msgs[j] == prev[j]);
                    }
                }
            }
        }
        if exists|i: int| is_last_asker(prev, id, i) {
            let i = choose|i: int| is_last_asker(prev, id, i);
            assert(is_last_asker(msgs, id, i));
            let i2 = choose|i: int| is_last_asker(msgs, id, i);
            lemma_last_asker_unique(msgs, id, i, i2);
            assert(attach_reasoning(msgs, id, r) =~= attach_reasoning(prev, id, r).push(msgs.last()));
        } else {
            assert(!exists|i: int| is_last_asker(msgs, id, i));
            assert(msgs =~= prev.push(msgs.last()));
        }
    }
}

/// `msgs` without the messages whose mark in `keep` is false.
pub open spec fn keep_marked(msgs: Seq<MessageView>, keep: Seq<bool>) -> Seq<MessageView>
    decreases msgs.len(),
{
    if msgs.len() == 0 {
        Seq::empty()
    } else {
        let prev = keep_marked(msgs.drop_last(), keep.drop_last());
        if keep.last() {
            prev.push(msgs.last())
        } else {
            prev
        }
    }
}

proof fn lemma_attach_keep_marked(
    msgs: Seq<MessageView>,
    keep: Seq<bool>,
    id: Seq<char>,
    r: Seq<char>,
)
    requires
        keep.len() == msgs.len(),
        forall|k: int| 0 <= k < msgs.len() && !keep[k] ==> (#[trigger] msgs[k]) is Tool,
    ensures
        keep_marked(attach_reasoning(msgs, id, r), keep) == attach_reasoning(
            keep_marked(msgs, keep),
            id,
            r,
        ),
    decreases msgs.len(),
{
    if msgs.len() == 0 {
        assert(!exists|i: int| is_last_asker(msgs, id, i));
        assert(!exists|i: int| is_last_asker(Seq::<MessageView>::empty(), id, i));
    } else {
        let prev = msgs.drop_last();
        let kp = keep.drop_last();
        let last = msgs.last();
        lemma_attach_last(msgs, id, r);
        law_attach_reasoning_touches_one_asker(prev, id, r);
        assert forall|k: int| 0 <= k < prev.len() && !kp[k] implies (#[trigger] prev[k]) is Tool by {
            assert(prev[k] == msgs[k]);
            assert(kp[k] == keep[k]);
        }
        lemma_attach_keep_marked(prev, kp, id, r);
        let kept_prev = keep_marked(prev, kp);
        if answers_call(last, id) {
            assert(keep[msgs.len() - 1]);
            let a = prev.push(with_reasoning(last, r));
            assert(a.drop_last() =~= prev);
            assert(keep_marked(msgs, keep) == kept_prev.push(last));
            lemma_attach_last(kept_prev.push(last), id, r);
            assert(kept_prev.push(last).drop_last() =~= kept_prev);
        } else {
            let a = attach_reasoning(prev, id, r).push(last);
            assert(a.drop_last() =~= attach_reasoning(prev, id, r));
            if keep.last() {
                lemma_attach_last(kept_prev.push(last), id, r);
                assert(kept_prev.push(last).drop_last() =~= kept_prev);
            }
        }
    }
}

/// Whether each message of the unfiltered conversion of `vals` stays when
/// orphans are filtered: every message but the tool messages of `tool` and
/// `tool_result` entries whose id was not pending.
pub open spec fn provider_marks(vals: Seq<Json>, limit: Option<usize>, media: SessionMediaView) -> Seq<
    bool,
>
    decreases vals.len(),
{
    if vals.len() == 0 {
        Seq::empty()
    } else {
        let prev = provider_marks(vals.drop_last(), limit, media);
        let v = vals.last();
        let pending = run(vals.drop_last(), false, limit, media).pending;
        match role_of(v) {
            None => prev,
            Some(role) => if role == "system"@ || role == "user"@ || role == "assistant"@ {
                prev.push(true)
            } else if role == "tool"@ || role == "tool_result"@ {
                prev.push(pending.contains(str_or_empty(v, "tool_call_id"@)))
            } else {
                prev
            },
        }
    }
}

/// No orphan `tool_result` entry (one whose id is not pending when it comes)
/// carries a non-blank reasoning.
pub open spec fn no_orphan_reasoning(vals: Seq<Json>, limit: Option<usize>, media: SessionMediaView) -> bool {
    forall|i: int|
        0 <= i < vals.len() && role_of(#[trigger] vals[i]) == Some("tool_result"@) && !run(
            vals.take(i),
            false,
            limit,
            media,
        ).pending.contains(str_or_empty(vals[i], "tool_call_id"@)) ==> reasoning_of(vals[i]) is None
}

proof fn lemma_pending_independent_of_filter(
    vals: Seq<Json>,
    limit: Option<usize>,
    media: SessionMediaView,
)
    ensures
        run(vals, true, limit, media).pending == run(vals, false, limit, media).pending,
    decreases vals.len(),
{
    if vals.len() > 0 {
        lemma_pending_independent_of_filter(vals.drop_last(), limit, media);
    }
}

/// Filtering orphans removes exactly the tool messages of orphan `tool` and
/// `tool_result` entries from the unfiltered (provider) conversion, keeping
/// every other message unchanged and in order, as long as no orphan
/// `tool_result` carries a reasoning.
pub proof fn law_filtering_drops_only_orphans(vals: Seq<Json>, limit: Option<usize>, media: SessionMediaView)
    requires
        no_orphan_reasoning(vals, limit, media),
    ensures
        provider_marks(vals, limit, media).len() == converted(vals, false, limit, media).len(),
        forall|k: int|
            0 <= k < converted(vals, false, limit, media).len() && !provider_marks(vals, limit, media)[k]
                ==> (#[trigger] converted(vals, false, limit, media)[k]) is Tool,
        converted(vals, true, limit, media) == keep_marked(
            converted(vals, false, limit, media),
            provider_marks(vals, limit, media),
        ),
    decreases vals.len(),
{
    reveal_role_names();
    if vals.len() > 0 {
        let prev = vals.drop_last();
        let v = vals.last();
        let n = vals.len() - 1;
        assert forall|i: int|
            0 <= i < prev.len() && role_of(#[trigger] prev[i]) == Some("tool_result"@) && !run(
                prev.take(i),
                false,
                limit,
                media,
            ).pending.contains(str_or_empty(prev[i], "tool_call_id"@)) implies reasoning_of(prev[i])
            is None by {
            assert(prev[i] == vals[i]);
            assert(prev.take(i) =~= vals.take(i));
        }
        law_filtering_drops_only_orphans(prev, limit, media);
        lemma_pending_independent_of_filter(prev, limit, media);
        assert(vals.take(n) =~= prev);
        assert(vals[n] == v);
        let sp = run(prev, false, limit, media);
        let sf = run(prev, true, limit, media);
        let p = sp.messages;
        let m = provider_marks(prev, limit, media);
        let np = converted(vals, false, limit, media);
        let nm = provider_marks(vals, limit, media);
        match role_of(v) {
            None => {},
            Some(role) => {
                if role == "system"@ || role == "user"@ || role == "assistant"@ || role == "tool"@ {
                    assert(np.drop_last() =~= p);
                    assert(nm.drop_last() =~= m);
                    assert forall|k: int| 0 <= k < np.len() && !nm[k] implies (#[trigger] np[k]) is Tool by {
                        if k < p.len() {
                            assert(np[k] == p[k]);
                            assert(nm[k] == m[k]);
                        }
                    }
                } else if role == "tool_result"@ {
                    let id = str_or_empty(v, "tool_call_id"@);
                    let p1 = match reasoning_of(v) {
                        Some(r) => attach_reasoning(p, id, r),
                        None => p,
                    };
                    match reasoning_of(v) {
                        Some(r) => {
                            law_attach_reasoning_touches_one_asker(p, id, r);
                            lemma_attach_keep_marked(p, m, id, r);
                        },
                        None => {},
                    }
                    assert(np.drop_last() =~= p1);
                    assert(nm.drop_last() =~= m);
                    assert forall|k: int| 0 <= k < np.len() && !nm[k] implies (#[trigger] np[k]) is Tool by {
                        if k < p.len() {
                            assert(np[k] == p1[k]);
                            assert(nm[k] == m[k]);
                            assert(p[k] is Tool);
                        }
                    }
                }
            },
        }
    }
}

} // verus!
