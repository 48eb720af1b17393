use vstd::prelude::*;
use crate::chat::{MessageView, PartView, UserContentView};
use crate::convert::{attach_reasoning, role_of, run};
use crate::json::{Json, json_at, json_compact_text, json_get, json_str};
use crate::laws::reveal_role_names;
use crate::media::{
    SessionMediaView, after_last_dot, ascii_lower, data_uri_parts, document_path,
    image_mime_for_extension, image_mime_of_filename, image_part_for,
};
use crate::requests::{all_image_requests, image_requests_of};
use crate::text::{is_white, lookup, trim, trim_end, trim_start};
use crate::tool_result::limited;
use crate::user::{block_parts, document_context, user_content, with_context};
use crate::tool_call::{metadata_keys, tool_call_metadata};
use crate::convert::tool_call_of;
use crate::json::json_parse;

verus! {

/// The entries of the `tool_calls` member of a stored message (none where it
/// is no array).
pub open spec fn tool_call_entries(v: Json) -> Seq<Json> {
    match json_at(v, "tool_calls"@) {
        Json::Array(a) => a,
        _ => Seq::empty(),
    }
}

/// The string `id` of a tool-call entry.
pub open spec fn entry_id(tc: Json) -> Option<Seq<char>> {
    json_str(json_at(tc, "id"@))
}

/// The string `function.name` of a tool-call entry.
pub open spec fn entry_name(tc: Json) -> Option<Seq<char>> {
    json_str(json_at(json_at(tc, "function"@), "name"@))
}

proof fn lemma_tool_calls_in_entries(tcs: Seq<Json>)
    ensures
        forall|j: int|
            0 <= j < tcs.len() && (#[trigger] entry_id(tcs[j])) is Some && entry_name(tcs[j]) is Some
                ==> exists|k: int|
                0 <= k < crate::convert::tool_calls_in(tcs).len() && crate::convert::tool_calls_in(
                    tcs,
                )[k].id == entry_id(tcs[j])->0 && crate::convert::tool_calls_in(tcs)[k].name
                    == entry_name(tcs[j])->0,
        forall|k: int|
            0 <= k < crate::convert::tool_calls_in(tcs).len() ==> exists|j: int|
                0 <= j < tcs.len() && entry_id(tcs[j]) == Some(
                    (#[trigger] crate::convert::tool_calls_in(tcs)[k]).id,
                ) && entry_name(tcs[j]) == Some(crate::convert::tool_calls_in(tcs)[k].name),
    decreases tcs.len(),
{
    if tcs.len() > 0 {
        let prev = tcs.drop_last();
        lemma_tool_calls_in_entries(prev);
        let cp = crate::convert::tool_calls_in(prev);
        let c = crate::convert::tool_calls_in(tcs);
        let n = tcs.len() - 1;
        assert(tcs[n] == tcs.last());
        assert forall|j: int|
            0 <= j < tcs.len() && (#[trigger] entry_id(tcs[j])) is Some && entry_name(tcs[j]) is Some
                implies exists|k: int|
            0 <= k < c.len() && c[k].id == entry_id(tcs[j])->0 && c[k].name == entry_name(tcs[j])->0 by {
            if j < n {
                assert(prev[j] == tcs[j]);
                assert(entry_id(prev[j]) is Some);
                let k = choose|k: int|
                    0 <= k < cp.len() && cp[k].id == entry_id(prev[j])->0 && cp[k].name == entry_name(
                        prev[j],
                    )->0;
                assert(c[k] == cp[k]);
            } else {
                assert(c[cp.len() as int].id == entry_id(tcs[j])->0);
            }
        }
        assert forall|k: int| 0 <= k < c.len() implies exists|j: int|
            0 <= j < tcs.len() && entry_id(tcs[j]) == Some((#[trigger] c[k]).id) && entry_name(tcs[j])
                == Some(c[k].name) by {
            if k < cp.len() {
                assert(c[k] == cp[k]);
                let j = choose|j: int|
                    0 <= j < prev.len() && entry_id(prev[j]) == Some(cp[k].id) && entry_name(prev[j])
                        == Some(cp[k].name);
                assert(prev[j] == tcs[j]);
            } else {
                assert(entry_id(tcs[n]) == Some(c[k].id));
            }
        }
    }
}

/// A stored assistant message gives one assistant message, whose content is
/// the message's string `content` (whatever tool calls it holds), which holds
/// a tool call for every entry of `tool_calls` with a string `id` and a
/// string `function.name` and no other, and after which the id of every such
/// entry is pending.
pub proof fn law_assistant_message(
    vals: Seq<Json>,
    v: Json,
    filter_orphans: bool,
    limit: Option<usize>,
    media: SessionMediaView,
)
    requires
        role_of(v) == Some("assistant"@),
    ensures
        run(vals.push(v), filter_orphans, limit, media).messages.len() == run(
            vals,
            filter_orphans,
            limit,
            media,
        ).messages.len() + 1,
        run(vals.push(v), filter_orphans, limit, media).messages.drop_last() == run(
            vals,
            filter_orphans,
            limit,
            media,
        ).messages,
        ({
            let m = run(vals.push(v), filter_orphans, limit, media).messages.last();
            let pending = run(vals.push(v), filter_orphans, limit, media).pending;
            let tcs = tool_call_entries(v);
            &&& m is Assistant
            &&& m->Assistant_content == json_str(json_at(v, "content"@))
            &&& m->tool_calls == crate::convert::tool_calls_in(tcs)
            &&& forall|j: int|
                0 <= j < tcs.len() && (#[trigger] entry_id(tcs[j])) is Some && entry_name(tcs[j]) is Some
                    ==> pending.contains(entry_id(tcs[j])->0) && exists|k: int|
                    0 <= k < m->tool_calls.len() && m->tool_calls[k].id == entry_id(tcs[j])->0
                        && m->tool_calls[k].name == entry_name(tcs[j])->0
            &&& forall|k: int|
                0 <= k < m->tool_calls.len() ==> exists|j: int|
                    0 <= j < tcs.len() && entry_id(tcs[j]) == Some((#[trigger] m->tool_calls[k]).id)
                        && entry_name(tcs[j]) == Some(m->tool_calls[k].name)
            &&& forall|x: Seq<char>|
                run(vals, filter_orphans, limit, media).pending.contains(x) ==> #[trigger] pending.contains(x)
        }),
{
    reveal_role_names();
    assert(vals.push(v).drop_last() =~= vals);
    assert(vals.push(v).last() == v);
    let tcs = tool_call_entries(v);
    lemma_tool_calls_in_entries(tcs);
    let calls = crate::convert::assistant_tool_calls(v);
    assert(calls == crate::convert::tool_calls_in(tcs));
    let st = run(vals, filter_orphans, limit, media);
    let nx = run(vals.push(v), filter_orphans, limit, media);
    assert(nx.messages =~= st.messages.push(crate::convert::assistant_message(v)));
    assert forall|j: int|
        0 <= j < tcs.len() && (#[trigger] entry_id(tcs[j])) is Some && entry_name(tcs[j]) is Some
            implies nx.pending.contains(entry_id(tcs[j])->0) by {
        let k = choose|k: int|
            0 <= k < calls.len() && calls[k].id == entry_id(tcs[j])->0 && calls[k].name == entry_name(
                tcs[j],
            )->0;
        assert(crate::convert::call_ids(calls).contains(entry_id(tcs[j])->0));
    }
    let m = nx.messages.last();
    assert(m == crate::convert::assistant_message(v));
    assert(m is Assistant);
    assert(m->Assistant_content == json_str(json_at(v, "content"@)));
    assert(m->tool_calls == calls);
    assert forall|j: int|
        0 <= j < tcs.len() && (#[trigger] entry_id(tcs[j])) is Some && entry_name(tcs[j]) is Some
            implies exists|k: int|
            0 <= k < m->tool_calls.len() && m->tool_calls[k].id == entry_id(tcs[j])->0
                && m->tool_calls[k].name == entry_name(tcs[j])->0 by {
    }
    assert forall|k: int| 0 <= k < m->tool_calls.len() implies exists|j: int|
        0 <= j < tcs.len() && entry_id(tcs[j]) == Some((#[trigger] m->tool_calls[k]).id)
            && entry_name(tcs[j]) == Some(m->tool_calls[k].name) by {
        assert(m->tool_calls[k] == calls[k]);
    }
    assert forall|x: Seq<char>| st.pending.contains(x) implies #[trigger] nx.pending.contains(x) by {
    }
}

/// A stored `tool` message that answers a pending tool call is kept, with
/// orphan filtering, as the next message, and its call stops being pending.
pub proof fn law_answering_tool_message_kept(
    vals: Seq<Json>,
    v: Json,
    limit: Option<usize>,
    media: SessionMediaView,
)
    requires
        role_of(v) == Some("tool"@),
        run(vals, true, limit, media).pending.contains(json_str(json_at(v, "tool_call_id"@))->0),
        json_str(json_at(v, "tool_call_id"@)) is Some,
    ensures
        run(vals.push(v), true, limit, media).messages.len() == run(vals, true, limit, media).messages.len()
            + 1,
        run(vals.push(v), true, limit, media).messages.last() matches MessageView::Tool {
            tool_call_id,
            ..
        } && tool_call_id == json_str(json_at(v, "tool_call_id"@))->0,
        !run(vals.push(v), true, limit, media).pending.contains(
            json_str(json_at(v, "tool_call_id"@))->0,
        ),
{
    reveal_role_names();
    assert(vals.push(v).drop_last() =~= vals);
}

/// The text of one attached document with its display name, MIME type and
/// media reference.
pub open spec fn section_text(doc: Json, data_dir: Seq<char>) -> Option<Seq<char>> {
    match (
        json_str(json_at(doc, "display_name"@)),
        json_str(json_at(doc, "mime_type"@)),
        json_str(json_at(doc, "media_ref"@)),
    ) {
        (Some(n), Some(m), Some(r)) => Some(
            "filename: "@ + n + "\nmime_type: "@ + m + "\nlocal_path: "@ + document_path(data_dir, r)
                + "\nmedia_ref: "@ + r,
        ),
        _ => None,
    }
}

/// A message without documents (no `documents` array, or an empty one) has no
/// document description.
pub proof fn law_no_documents_no_description(v: Json, media: SessionMediaView)
    requires
        !(json_at(v, "documents"@) is Array) || json_at(v, "documents"@)->Array_0.len() == 0,
    ensures
        document_context(v, media) is None,
{
}

/// Adding a document to a message's `documents` adds exactly its section to
/// the description, after a blank line: after the header for the first
/// described document, after the earlier sections otherwise. A document that
/// lacks its display name, MIME type or media reference changes nothing.
pub proof fn law_documents_described_in_order(
    v1: Json,
    v2: Json,
    docs: Seq<Json>,
    d: Json,
    media: SessionMediaView,
)
    requires
        json_at(v1, "documents"@) == Json::Array(docs),
        json_at(v2, "documents"@) == Json::Array(docs.push(d)),
    ensures
        section_text(d, media.data_dir) is None ==> document_context(v2, media) == document_context(
            v1,
            media,
        ),
        section_text(d, media.data_dir) is Some ==> document_context(v2, media) == Some(
            match document_context(v1, media) {
                Some(c) => c,
                None => "[Inbound documents available]"@,
            } + "\n\n"@ + section_text(d, media.data_dir)->0,
        ),
{
    let all = docs.push(d);
    assert(all.drop_last() =~= docs);
    assert(all.last() == d);
    let s1 = crate::user::document_sections(docs, media);
    if let Some(sec) = section_text(d, media.data_dir) {
        let h = seq![crate::user::documents_header()];
        let x = h + s1.push(sec);
        assert(crate::user::document_section(d, media) == Some(sec));
        assert(crate::user::document_sections(all, media) == s1.push(sec));
        assert(x.drop_last() =~= h + s1);
        assert(x.last() == sec);
        assert(x.len() >= 2);
        let sep = crate::user::paragraph_break();
        assert(crate::user::join(x, sep) == crate::user::join(h + s1, sep) + sep + sec);
        if s1.len() == 0 {
            assert(h + s1 =~= h);
            assert(crate::user::join(h, sep) == crate::user::documents_header());
        }
    }
}

/// For a URL that is no data URI, the image part is the image paired with
/// the first loaded entry for that URL, wherever it stands; there is none
/// exactly when no loaded entry has that URL.
pub proof fn law_session_image_lookup(url: Seq<char>, media: SessionMediaView)
    requires
        data_uri_parts(url) is None,
    ensures
        forall|k: int|
            0 <= k < media.images.len() && (#[trigger] media.images[k]).0 == url && (forall|j: int|
                0 <= j < k ==> media.images[j].0 != url) ==> image_part_for(url, media) == Some(
                media.images[k].1,
            ),
        (forall|k: int| 0 <= k < media.images.len() ==> (#[trigger] media.images[k]).0 != url)
            ==> image_part_for(url, media) is None,
{
    lemma_lookup_first(media.images, url);
}

proof fn lemma_lookup_first(s: Seq<(Seq<char>, PartView)>, key: Seq<char>)
    ensures
        forall|k: int|
            0 <= k < s.len() && (#[trigger] s[k]).0 == key && (forall|j: int|
                0 <= j < k ==> s[j].0 != key) ==> lookup(s, key) == Some(s[k].1),
        (forall|k: int| 0 <= k < s.len() ==> (#[trigger] s[k]).0 != key) ==> lookup(s, key) is None,
    decreases s.len(),
{
    if s.len() > 0 {
        let rest = s.drop_first();
        lemma_lookup_first(rest, key);
        assert forall|k: int|
            0 <= k < s.len() && (#[trigger] s[k]).0 == key && (forall|j: int|
                0 <= j < k ==> s[j].0 != key) implies lookup(s, key) == Some(s[k].1) by {
            if k > 0 {
                assert(s[0].0 != key);
                assert(rest[k - 1] == s[k]);
                assert forall|j: int| 0 <= j < k - 1 implies rest[j].0 != key by {
                    assert(rest[j] == s[j + 1]);
                }
            }
        }
        if forall|k: int| 0 <= k < s.len() ==> (#[trigger] s[k]).0 != key {
            assert(s[0].0 != key);
            assert forall|k: int| 0 <= k < rest.len() implies (#[trigger] rest[k]).0 != key by {
                assert(rest[k] == s[k + 1]);
            }
        }
    }
}

/// The URL of a content block of type `image_url`, where it is a string.
pub open spec fn image_block_url(b: Json) -> Option<Seq<char>> {
    if json_str(json_at(b, "type"@)) == Some("image_url"@) {
        json_str(json_at(json_at(b, "image_url"@), "url"@))
    } else {
        None
    }
}

/// The image requests of user messages grow block by block: adding a content
/// block adds its URL exactly when it is an image block whose URL is no data
/// URI, and nothing otherwise.
pub proof fn law_image_requests_per_block(v1: Json, v2: Json, blocks: Seq<Json>, b: Json)
    requires
        role_of(v1) == Some("user"@),
        role_of(v2) == Some("user"@),
        json_at(v1, "content"@) == Json::Array(blocks),
        json_at(v2, "content"@) == Json::Array(blocks.push(b)),
    ensures
        image_requests_of(v2) == image_requests_of(v1) + match image_block_url(b) {
            Some(u) => if data_uri_parts(u) is None {
                seq![u]
            } else {
                Seq::empty()
            },
            None => Seq::empty(),
        },
{
    let all = blocks.push(b);
    assert(all.drop_last() =~= blocks);
    assert(all.last() == b);
    let r1 = image_requests_of(v1);
    assert(r1 + Seq::<Seq<char>>::empty() =~= r1);
    if let Some(u) = image_block_url(b) {
        if data_uri_parts(u) is None {
            assert(r1.push(u) =~= r1 + seq![u]);
        }
    }
}

/// Messages that are no user messages, and user messages whose content is no
/// block list, need no images.
pub proof fn law_no_image_requests_without_blocks(v: Json)
    requires
        role_of(v) != Some("user"@) || !(json_at(v, "content"@) is Array) || json_at(
            v,
            "content"@,
        )->Array_0.len() == 0,
    ensures
        image_requests_of(v).len() == 0,
{
}

/// The image requests of a list of messages are those of each message, one
/// after the other: adding a message adds its requests at the end.
pub proof fn law_image_requests_per_message(vals: Seq<Json>, v: Json)
    ensures
        all_image_requests(vals.push(v)) == all_image_requests(vals) + image_requests_of(v),
        all_image_requests(Seq::empty()).len() == 0,
{
    assert(vals.push(v).drop_last() =~= vals);
    assert(vals.push(v).last() == v);
}

/// The message is an assistant message with a tool call of id `id`.
pub open spec fn asks_for(m: MessageView, id: Seq<char>) -> bool {
    m is Assistant && exists|j: int|
        0 <= j < m->tool_calls.len() && (#[trigger] m->tool_calls[j]).id == id
}

/// The last assistant message that asks for the tool call `id` gets the
/// reasoning where it has none, keeping its content and tool calls.
pub proof fn law_attach_reasoning_reaches_last_asker(msgs: Seq<MessageView>, id: Seq<char>, r: Seq<char>)
    ensures
        forall|k: int|
            0 <= k < msgs.len() && #[trigger] asks_for(msgs[k], id) && (forall|j: int|
                k < j < msgs.len() ==> !asks_for(msgs[j], id)) && msgs[k]->reasoning is None
                ==> attach_reasoning(msgs, id, r)[k] == (MessageView::Assistant {
                content: msgs[k]->Assistant_content,
                tool_calls: msgs[k]->tool_calls,
                reasoning: Some(r),
            }),
{
    assert forall|k: int|
        0 <= k < msgs.len() && #[trigger] asks_for(msgs[k], id) && (forall|j: int|
            k < j < msgs.len() ==> !asks_for(msgs[j], id)) && msgs[k]->reasoning is None
            implies attach_reasoning(msgs, id, r)[k] == (MessageView::Assistant {
            content: msgs[k]->Assistant_content,
            tool_calls: msgs[k]->tool_calls,
            reasoning: Some(r),
        }) by {
        assert forall|j: int| k < j < msgs.len() implies !crate::convert::answers_call(
            #[trigger] msgs[j],
            id,
        ) by {
            assert(!asks_for(msgs[j], id));
        }
        assert(crate::convert::is_last_asker(msgs, id, k));
        let i = choose|i: int| crate::convert::is_last_asker(msgs, id, i);
        crate::laws::lemma_last_asker_unique(msgs, id, i, k);
    }
}

/// `trim` removes whitespace from both ends and nothing else: it is a slice of
/// the text, everything cut off is whitespace, and a non-empty result starts
/// and ends with a character that is no whitespace.
pub proof fn law_trim_cuts_only_whitespace(s: Seq<char>)
    ensures
        exists|a: int, b: int|
            0 <= a <= b <= s.len() && trim(s) == s.subrange(a, b) && (forall|i: int|
                0 <= i < a ==> is_white(#[trigger] s[i])) && (forall|i: int|
                b <= i < s.len() ==> is_white(#[trigger] s[i])),
        trim(s).len() > 0 ==> !is_white(trim(s)[0]) && !is_white(trim(s).last()),
{
    lemma_trim_start(s);
    let t = trim_start(s);
    lemma_trim_end(t);
    let a = s.len() - t.len();
    let b = a + trim_end(t).len();
    assert(trim(s) =~= s.subrange(a, b));
    assert forall|i: int| b <= i < s.len() implies is_white(#[trigger] s[i]) by {
        assert(s[i] == t[i - a]);
    }
}

proof fn lemma_trim_start(s: Seq<char>)
    ensures
        trim_start(s) == s.skip(s.len() - trim_start(s).len()),
        trim_start(s).len() <= s.len(),
        forall|i: int| 0 <= i < s.len() - trim_start(s).len() ==> is_white(#[trigger] s[i]),
        trim_start(s).len() > 0 ==> !is_white(trim_start(s)[0]),
    decreases s.len(),
{
    if s.len() > 0 && is_white(s[0]) {
        lemma_trim_start(s.drop_first());
        assert(s.drop_first().skip(s.drop_first().len() - trim_start(s.drop_first()).len())
            =~= s.skip(s.len() - trim_start(s).len()));
        assert forall|i: int| 0 <= i < s.len() - trim_start(s).len() implies is_white(#[trigger] s[i]) by {
            if i > 0 {
                assert(s[i] == s.drop_first()[i - 1]);
            }
        }
    } else {
        assert(s.skip(0) =~= s);
    }
}

proof fn lemma_trim_end(s: Seq<char>)
    ensures
        trim_end(s) == s.take(trim_end(s).len() as int),
        trim_end(s).len() <= s.len(),
        forall|i: int| trim_end(s).len() <= i < s.len() ==> is_white(#[trigger] s[i]),
        trim_end(s).len() > 0 ==> !is_white(trim_end(s).last()),
        trim_end(s).len() > 0 ==> trim_end(s)[0] == s[0],
    decreases s.len(),
{
    if s.len() > 0 && is_white(s.last()) {
        lemma_trim_end(s.drop_last());
        assert(s.drop_last().take(trim_end(s).len() as int) =~= s.take(trim_end(s).len() as int));
        assert forall|i: int| trim_end(s).len() <= i < s.len() implies is_white(#[trigger] s[i]) by {
            if i < s.len() - 1 {
                assert(s[i] == s.drop_last()[i]);
            }
        }
    } else {
        assert(s.take(s.len() as int) =~= s);
    }
}

/// A stored assistant message's reasoning is its string `reasoning` with the
/// surrounding whitespace trimmed, and none where that is missing, no string
/// or blank.
pub proof fn law_assistant_reasoning(
    vals: Seq<Json>,
    v: Json,
    filter_orphans: bool,
    limit: Option<usize>,
    media: SessionMediaView,
)
    requires
        role_of(v) == Some("assistant"@),
    ensures
        run(vals.push(v), filter_orphans, limit, media).messages.last()->reasoning == match json_str(
            json_at(v, "reasoning"@),
        ) {
            Some(s) => if trim(s).len() == 0 {
                None
            } else {
                Some(trim(s))
            },
            None => None,
        },
{
    reveal_role_names();
    assert(vals.push(v).drop_last() =~= vals);
    assert(vals.push(v).last() == v);
}

/// A stored system message gives a system message with its string content
/// (empty where there is none) and leaves the pending calls alone.
pub proof fn law_system_message(
    vals: Seq<Json>,
    v: Json,
    filter_orphans: bool,
    limit: Option<usize>,
    media: SessionMediaView,
)
    requires
        role_of(v) == Some("system"@),
    ensures
        run(vals.push(v), filter_orphans, limit, media).messages == run(
            vals,
            filter_orphans,
            limit,
            media,
        ).messages.push(
            MessageView::System {
                content: match json_str(json_at(v, "content"@)) {
                    Some(c) => c,
                    None => Seq::empty(),
                },
            },
        ),
        run(vals.push(v), filter_orphans, limit, media).pending == run(
            vals,
            filter_orphans,
            limit,
            media,
        ).pending,
{
    reveal_role_names();
    assert(vals.push(v).drop_last() =~= vals);
    assert(vals.push(v).last() == v);
}

/// The content that a stored `tool_result` entry stands for: `Error: ` and
/// its error, else its result as text or as JSON, else empty.
pub open spec fn expected_tool_result_content(v: Json) -> Seq<char> {
    match json_str(json_at(v, "error"@)) {
        Some(e) => "Error: "@ + e,
        None => match json_get(v, "result"@) {
            Some(Json::Text(t)) => t,
            Some(r) => json_compact_text(r),
            None => Seq::empty(),
        },
    }
}

/// A stored `tool` or `tool_result` entry that is kept (its call is pending,
/// or orphans are not filtered) gives a tool message for its id, with its
/// content (for `tool`: the text, else the JSON text; for `tool_result`: see
/// `expected_tool_result_content`), limited; its id stops being pending.
pub proof fn law_tool_message_content(
    vals: Seq<Json>,
    v: Json,
    filter_orphans: bool,
    limit: Option<usize>,
    media: SessionMediaView,
)
    requires
        role_of(v) == Some("tool"@) || role_of(v) == Some("tool_result"@),
        !filter_orphans || run(vals, filter_orphans, limit, media).pending.contains(
            match json_str(json_at(v, "tool_call_id"@)) {
                Some(i) => i,
                None => Seq::empty(),
            },
        ),
    ensures
        ({
            let id = match json_str(json_at(v, "tool_call_id"@)) {
                Some(i) => i,
                None => Seq::empty(),
            };
            let content = if role_of(v) == Some("tool"@) {
                match json_at(v, "content"@) {
                    Json::Text(t) => t,
                    other => json_compact_text(other),
                }
            } else {
                expected_tool_result_content(v)
            };
            &&& run(vals.push(v), filter_orphans, limit, media).messages.last() == (MessageView::Tool {
                tool_call_id: id,
                content: limited(content, limit),
            })
            &&& run(vals.push(v), filter_orphans, limit, media).messages.len() == run(
                vals,
                filter_orphans,
                limit,
                media,
            ).messages.len() + 1
            &&& run(vals.push(v), filter_orphans, limit, media).pending == run(
                vals,
                filter_orphans,
                limit,
                media,
            ).pending.remove(id)
        }),
{
    reveal_role_names();
    assert(vals.push(v).drop_last() =~= vals);
    assert(vals.push(v).last() == v);
    let st = run(vals, filter_orphans, limit, media);
    if role_of(v) == Some("tool_result"@) {
        let id = crate::convert::str_or_empty(v, "tool_call_id"@);
        match crate::convert::reasoning_of(v) {
            Some(r) => crate::laws::law_attach_reasoning_touches_one_asker(st.messages, id, r),
            None => {},
        }
    }
}

/// The part that one content block stands for.
pub open spec fn expected_block_part(b: Json, media: SessionMediaView) -> Option<PartView> {
    if json_str(json_at(b, "type"@)) == Some("text"@) {
        match json_str(json_at(b, "text"@)) {
            Some(t) => Some(PartView::Text(t)),
            None => None,
        }
    } else {
        match image_block_url(b) {
            Some(u) => image_part_for(u, media),
            None => None,
        }
    }
}

/// The parts of a block list grow block by block: a text block adds its text,
/// an image block the image its URL leads to (if any), other blocks nothing.
pub proof fn law_parts_per_block(blocks: Seq<Json>, b: Json, media: SessionMediaView)
    ensures
        block_parts(blocks.push(b), media) == block_parts(blocks, media) + match expected_block_part(b, media) {
            Some(p) => seq![p],
            None => Seq::empty(),
        },
        block_parts(Seq::empty(), media).len() == 0,
{
    reveal_strlit("text");
    reveal_strlit("image_url");
    assert("text"@.len() != "image_url"@.len());
    let all = blocks.push(b);
    assert(all.drop_last() =~= blocks);
    assert(all.last() == b);
    let p1 = block_parts(blocks, media);
    assert(p1 + Seq::<PartView>::empty() =~= p1);
    match expected_block_part(b, media) {
        Some(p) => {
            assert(p1.push(p) =~= p1 + seq![p]);
        },
        None => {},
    }
}

/// The document description goes into the first text part, after a blank
/// line unless that text is blank; with no text part it becomes a new text
/// part in front. Every other part is kept as it is.
pub proof fn law_documents_join_first_text_part(parts: Seq<PartView>, c: Seq<char>)
    ensures
        with_context(parts, None) == parts,
        forall|i: int|
            0 <= i < parts.len() && (#[trigger] parts[i]) is Text && (forall|j: int|
                0 <= j < i ==> !(parts[j] is Text)) ==> with_context(parts, Some(c)) == parts.update(
                i,
                PartView::Text(
                    if trim(parts[i]->Text_0).len() == 0 {
                        parts[i]->Text_0 + c
                    } else {
                        parts[i]->Text_0 + "\n\n"@ + c
                    },
                ),
            ),
        (forall|i: int| 0 <= i < parts.len() ==> !((#[trigger] parts[i]) is Text)) ==> with_context(
            parts,
            Some(c),
        ) == seq![PartView::Text(c)] + parts,
{
    assert forall|i: int|
        0 <= i < parts.len() && (#[trigger] parts[i]) is Text && (forall|j: int|
            0 <= j < i ==> !(parts[j] is Text)) implies with_context(parts, Some(c)) == parts.update(
        i,
        PartView::Text(
            if trim(parts[i]->Text_0).len() == 0 {
                parts[i]->Text_0 + c
            } else {
                parts[i]->Text_0 + "\n\n"@ + c
            },
        ),
    ) by {
        assert(crate::user::is_first_text(parts, i));
        let k = choose|k: int| crate::user::is_first_text(parts, k);
        if k < i {
            assert(!(parts[k] is Text));
        } else if i < k {
            assert(!(parts[i] is Text));
        }
    }
}

/// The text of a user message with text content: the text, with the document
/// description after a blank line, or the description alone where the text is
/// blank.
pub proof fn law_user_text_content(v: Json, media: SessionMediaView)
    requires
        json_at(v, "content"@) is Text,
    ensures
        user_content(v, media) == UserContentView::Text(
            match document_context(v, media) {
                Some(c) => if trim(json_at(v, "content"@)->Text_0).len() == 0 {
                    c
                } else {
                    json_at(v, "content"@)->Text_0 + "\n\n"@ + c
                },
                None => json_at(v, "content"@)->Text_0,
            },
        ),
{
}

/// The MIME type goes by the text after the last `.` (all of a name without
/// one), ignoring ASCII case.
pub proof fn law_mime_by_last_extension(prefix: Seq<char>, ext: Seq<char>)
    requires
        !ext.contains('.'),
    ensures
        image_mime_of_filename(prefix + seq!['.'] + ext) == image_mime_for_extension(ascii_lower(ext)),
        !prefix.contains('.') ==> image_mime_of_filename(prefix) == image_mime_for_extension(
            ascii_lower(prefix),
        ),
{
    lemma_after_last_dot_suffix(prefix + seq!['.'], ext);
    assert((prefix + seq!['.']).last() == '.');
    assert(after_last_dot(prefix + seq!['.']) == Seq::<char>::empty());
    assert(Seq::<char>::empty() + ext =~= ext);
    if !prefix.contains('.') {
        lemma_after_last_dot_suffix(Seq::empty(), prefix);
        assert(Seq::<char>::empty() + prefix =~= prefix);
    }
}

proof fn lemma_after_last_dot_suffix(a: Seq<char>, e: Seq<char>)
    requires
        !e.contains('.'),
    ensures
        after_last_dot(a + e) == after_last_dot(a) + e,
    decreases e.len(),
{
    if e.len() == 0 {
        assert(a + e =~= a);
        assert(after_last_dot(a) + e =~= after_last_dot(a));
    } else {
        let e2 = e.drop_last();
        assert(!e2.contains('.')) by {
            if e2.contains('.') {
                let j = choose|j: int| 0 <= j < e2.len() && e2[j] == '.';
                assert(e[j] == '.');
            }
        }
        lemma_after_last_dot_suffix(a, e2);
        assert((a + e).drop_last() =~= a + e2);
        assert((a + e).last() == e.last());
        assert(e.last() != '.') by {
            assert(e[e.len() - 1] == e.last());
        }
        assert((after_last_dot(a) + e2).push(e.last()) =~= after_last_dot(a) + e);
    }
}

/// The MIME types of the known image extensions; anything else is JPEG.
pub proof fn law_mime_table(ext: Seq<char>)
    ensures
        image_mime_for_extension("png"@) == "image/png"@,
        image_mime_for_extension("jpg"@) == "image/jpeg"@,
        image_mime_for_extension("jpeg"@) == "image/jpeg"@,
        image_mime_for_extension("gif"@) == "image/gif"@,
        image_mime_for_extension("webp"@) == "image/webp"@,
        image_mime_for_extension("svg"@) == "image/svg+xml"@,
        ext != "png"@ && ext != "jpg"@ && ext != "jpeg"@ && ext != "gif"@ && ext != "webp"@ && ext
            != "svg"@ ==> image_mime_for_extension(ext) == "image/jpeg"@,
{
    reveal_strlit("png");
    reveal_strlit("jpg");
    reveal_strlit("jpeg");
    reveal_strlit("gif");
    reveal_strlit("webp");
    reveal_strlit("svg");
    assert("png"@ != "jpg"@) by { assert("png"@[0] != "jpg"@[0]); }
    assert("png"@ != "gif"@) by { assert("png"@[0] != "gif"@[0]); }
    assert("png"@ != "svg"@) by { assert("png"@[0] != "svg"@[0]); }
    assert("jpg"@ != "gif"@) by { assert("jpg"@[0] != "gif"@[0]); }
    assert("jpg"@ != "svg"@) by { assert("jpg"@[0] != "svg"@[0]); }
    assert("gif"@ != "svg"@) by { assert("gif"@[0] != "svg"@[0]); }
    assert("jpeg"@ != "png"@) by { assert("jpeg"@.len() != "png"@.len()); }
    assert("jpeg"@ != "jpg"@) by { assert("jpeg"@.len() != "jpg"@.len()); }
    assert("gif"@ != "jpeg"@) by { assert("gif"@.len() != "jpeg"@.len()); }
    assert("webp"@ != "png"@) by { assert("webp"@.len() != "png"@.len()); }
    assert("webp"@ != "jpg"@) by { assert("webp"@.len() != "jpg"@.len()); }
    assert("webp"@ != "jpeg"@) by { assert("webp"@[0] != "jpeg"@[0]); }
    assert("webp"@ != "gif"@) by { assert("webp"@.len() != "gif"@.len()); }
    assert("svg"@ != "jpeg"@) by { assert("svg"@.len() != "jpeg"@.len()); }
    assert("svg"@ != "webp"@) by { assert("svg"@.len() != "webp"@.len()); }
}

/// A document's local path: an absolute media reference is kept; a relative
/// one lies in the `sessions` directory of the data directory.
pub proof fn law_document_path(data_dir: Seq<char>, media_ref: Seq<char>)
    ensures
        media_ref.len() > 0 && media_ref[0] == '/' ==> document_path(data_dir, media_ref) == media_ref,
        !(media_ref.len() > 0 && media_ref[0] == '/') && data_dir.len() > 0 && data_dir.last() != '/'
            ==> document_path(data_dir, media_ref) == data_dir + "/sessions/"@ + media_ref,
        !(media_ref.len() > 0 && media_ref[0] == '/') && data_dir.len() > 0 && data_dir.last() == '/'
            ==> document_path(data_dir, media_ref) == data_dir + "sessions/"@ + media_ref,
{
    reveal_strlit("sessions");
    reveal_strlit("/sessions/");
    reveal_strlit("sessions/");
    let s = "sessions"@;
    assert(s[0] != '/');
    if data_dir.len() > 0 && data_dir.last() != '/' {
        let j = data_dir + seq!['/'] + s;
        assert(j.last() == 's');
        assert(j + seq!['/'] + media_ref =~= data_dir + "/sessions/"@ + media_ref);
    }
    if data_dir.len() > 0 && data_dir.last() == '/' {
        let j = data_dir + s;
        assert(j.last() == 's');
        assert(j + seq!['/'] + media_ref =~= data_dir + "sessions/"@ + media_ref);
    }
}

/// A stored user message gives a user message whose name is its string
/// `name`, and whose content is: for text content, the text with the document
/// description (see `law_user_text_content`); for a block list, the parts of
/// the blocks with the description joined into the first text part; for
/// anything else, the description alone (empty where there is none). The
/// pending calls stay as they are.
pub proof fn law_user_message(
    vals: Seq<Json>,
    v: Json,
    filter_orphans: bool,
    limit: Option<usize>,
    media: SessionMediaView,
)
    requires
        role_of(v) == Some("user"@),
    ensures
        ({
            let st = run(vals, filter_orphans, limit, media);
            let nx = run(vals.push(v), filter_orphans, limit, media);
            let ctx = document_context(v, media);
            &&& nx.pending == st.pending
            &&& nx.messages.drop_last() == st.messages
            &&& nx.messages.len() == st.messages.len() + 1
            &&& nx.messages.last() is User
            &&& nx.messages.last()->name == json_str(json_at(v, "name"@))
            &&& nx.messages.last()->User_content == match json_at(v, "content"@) {
                Json::Text(t) => UserContentView::Text(
                    match ctx {
                        Some(c) => if trim(t).len() == 0 {
                            c
                        } else {
                            t + "\n\n"@ + c
                        },
                        None => t,
                    },
                ),
                Json::Array(blocks) => UserContentView::Multimodal(
                    with_context(block_parts(blocks, media), ctx),
                ),
                _ => UserContentView::Text(
                    match ctx {
                        Some(c) => c,
                        None => Seq::empty(),
                    },
                ),
            }
        }),
{
    reveal_role_names();
    assert(vals.push(v).drop_last() =~= vals);
    assert(vals.push(v).last() == v);
    let st = run(vals, filter_orphans, limit, media);
    let nx = run(vals.push(v), filter_orphans, limit, media);
    assert(nx.messages =~= st.messages.push(crate::user::user_message(v, media)));
}

/// The metadata key that tool calls carry over.
pub proof fn law_thought_signature_allowlisted()
    ensures
        metadata_keys().contains("thought_signature"@),
{
    assert(metadata_keys()[0] == "thought_signature"@);
}

/// Where the value of a metadata key comes from: the tool call's own member,
/// else the member of its `metadata` object, else that of its
/// `extra_content.google` object.
pub proof fn law_metadata_precedence(tc: Json, k: Seq<char>)
    requires
        tc is Object,
        metadata_keys().contains(k),
    ensures
        ({
            let found = match json_get(tc, k) {
                Some(x) => Some(x),
                None => match json_get(tc, "metadata"@) {
                    Some(Json::Object(m)) => match json_get(Json::Object(m), k) {
                        Some(x) => Some(x),
                        None => match json_get(tc, "extra_content"@) {
                            Some(e) => match json_get(e, "google"@) {
                                Some(g) => json_get(g, k),
                                None => None,
                            },
                            None => None,
                        },
                    },
                    _ => match json_get(tc, "extra_content"@) {
                        Some(e) => match json_get(e, "google"@) {
                            Some(g) => json_get(g, k),
                            None => None,
                        },
                        None => None,
                    },
                },
            };
            match found {
                Some(x) => tool_call_metadata(tc) matches Some(m) && exists|i: int|
                    0 <= i < m.len() && m[i] == (k, x),
                None => tool_call_metadata(tc) matches Some(m) ==> forall|i: int|
                    0 <= i < m.len() ==> m[i].0 != k,
            }
        }),
{
    crate::laws::law_metadata_keys_allowlisted(tc);
    lemma_metadata_members_hold(tc, metadata_keys(), k);
}

proof fn lemma_metadata_members_hold(tc: Json, keys: Seq<Seq<char>>, k: Seq<char>)
    requires
        keys.contains(k),
    ensures
        match crate::tool_call::metadata_value(tc, k) {
            Some(x) => exists|i: int|
                0 <= i < crate::tool_call::metadata_members(tc, keys).len()
                    && crate::tool_call::metadata_members(tc, keys)[i] == (k, x),
            None => true,
        },
    decreases keys.len(),
{
    let prev = keys.drop_last();
    let mm = crate::tool_call::metadata_members(tc, keys);
    let pm = crate::tool_call::metadata_members(tc, prev);
    if keys.last() == k {
        if let Some(x) = crate::tool_call::metadata_value(tc, k) {
            assert(mm[pm.len() as int] == (k, x));
        }
    } else {
        let j = choose|j: int| 0 <= j < keys.len() && keys[j] == k;
        assert(j < keys.len() - 1);
        assert(prev[j] == k);
        lemma_metadata_members_hold(tc, prev, k);
        if let Some(x) = crate::tool_call::metadata_value(tc, k) {
            let i = choose|i: int| 0 <= i < pm.len() && pm[i] == (k, x);
            assert(mm[i] == pm[i]);
        }
    }
}

/// A tool-call entry with a string `id` and a string `function.name` gives a
/// tool call with that id and name, its metadata, and its arguments decoded
/// from `function.arguments`: missing, `null` or blank text give an empty
/// object; other text is read as JSON, and text that is not JSON gives an
/// empty object and a note; any other value is kept.
pub proof fn law_tool_call_entry(tc: Json)
    requires
        entry_id(tc) is Some,
        entry_name(tc) is Some,
    ensures
        ({
            let raw = json_get(json_at(tc, "function"@), "arguments"@);
            let (arguments, diagnostic) = match raw {
                None => (Json::Object(Seq::empty()), None),
                Some(Json::Null) => (Json::Object(Seq::empty()), None),
                Some(Json::Text(t)) => if trim(t).len() == 0 {
                    (Json::Object(Seq::empty()), None)
                } else {
                    match json_parse(t) {
                        Some(x) => (x, None),
                        None => (
                            Json::Object(Seq::empty()),
                            Some("tool call arguments are not valid JSON"@),
                        ),
                    }
                },
                Some(x) => (x, None),
            };
            tool_call_of(tc) == Some(
                crate::chat::ToolCallView {
                    id: entry_id(tc)->0,
                    name: entry_name(tc)->0,
                    arguments,
                    argument_diagnostic: diagnostic,
                    metadata: tool_call_metadata(tc),
                },
            )
        }),
{
}

/// An entry without a string `id` or a string `function.name` gives no tool
/// call.
pub proof fn law_invalid_tool_call_entry(tc: Json)
    requires
        entry_id(tc) is None || entry_name(tc) is None,
    ensures
        tool_call_of(tc) is None,
{
}

/// The tool calls of a list of entries grow entry by entry: an entry adds its
/// tool call where it gives one, and nothing otherwise.
pub proof fn law_tool_calls_per_entry(tcs: Seq<Json>, t: Json)
    ensures
        crate::convert::tool_calls_in(tcs.push(t)) == crate::convert::tool_calls_in(tcs) + match tool_call_of(t) {
            Some(c) => seq![c],
            None => Seq::empty(),
        },
        crate::convert::tool_calls_in(Seq::empty()).len() == 0,
{
    let all = tcs.push(t);
    assert(all.drop_last() =~= tcs);
    assert(all.last() == t);
    let c1 = crate::convert::tool_calls_in(tcs);
    assert(c1 + Seq::<crate::chat::ToolCallView>::empty() =~= c1);
    if let Some(c) = tool_call_of(t) {
        assert(c1.push(c) =~= c1 + seq![c]);
    }
}

/// Only a text that starts with `data:` and holds `;base64,` after it is
/// read as a data URI; a data URI's image part is its own image, whatever
/// images are loaded.
pub proof fn law_data_uri_shape(url: Seq<char>, media: SessionMediaView)
    ensures
        !(url.len() >= 5 && url.take(5) == seq!['d', 'a', 't', 'a', ':']) ==> data_uri_parts(url) is None,
        data_uri_parts(url) matches Some((m, d)) ==> url == seq!['d', 'a', 't', 'a', ':'] + m + seq![
            ';',
            'b',
            'a',
            's',
            'e',
            '6',
            '4',
            ',',
        ] + d && image_part_for(url, media) == Some(PartView::Image { media_type: m, data: d }),
{
    if let Some((m, d)) = data_uri_parts(url) {
        let rest = url.skip(5);
        let k = crate::media::find_from(rest, crate::media::base64_separator(), 0)->0;
        lemma_find_from_hit(rest, crate::media::base64_separator(), 0);
        assert(rest =~= rest.take(k) + rest.subrange(k, k + 8) + rest.skip(k + 8));
        assert(url =~= url.take(5) + rest);
    }
}

proof fn lemma_find_from_hit(s: Seq<char>, pat: Seq<char>, i: int)
    ensures
        crate::media::find_from(s, pat, i) matches Some(k) ==> i <= k && k + pat.len() <= s.len()
            && s.subrange(k, k + pat.len()) == pat,
    decreases s.len() + 1 - i,
{
    if !(i < 0 || i + pat.len() > s.len()) && s.subrange(i, i + pat.len()) != pat {
        lemma_find_from_hit(s, pat, i + 1);
    }
}

/// The white space that trimming removes: tab, line feed, vertical tab, form
/// feed, carriage return and space among ASCII, and no visible ASCII
/// character.
pub proof fn law_white_space(c: char)
    ensures
        is_white(' ') && is_white('\t') && is_white('\n') && is_white('\r') && is_white('\x0b')
            && is_white('\x0c'),
        0x21 <= (c as u32) <= 0x7e ==> !is_white(c),
        is_white('\u{a0}') && is_white('\u{3000}') && is_white('\u{2028}'),
{
}

} // verus!
