use vstd::prelude::*;
use crate::chat::{ChatMessage, ContentPart, MessageView, PartView, UserContent, UserContentView, parts_view};
use crate::json::{Json, JsonValue, get, get_str, json_array, json_at, json_seq_view, json_str, lemma_json_seq_view};
use crate::media::{
    SessionMedia, SessionMediaView, document_absolute_path_from_media_ref, document_path,
    image_part_for, image_url_to_content_part,
};
use crate::text::{is_blank, trim};

verus! {

/// The texts `parts` joined with `sep` between each two of them.
pub open spec fn join(parts: Seq<Seq<char>>, sep: Seq<char>) -> Seq<char>
    decreases parts.len(),
{
    if parts.len() == 0 {
        Seq::empty()
    } else if parts.len() == 1 {
        parts[0]
    } else {
        join(parts.drop_last(), sep) + sep + parts.last()
    }
}

/// The line that opens the description of a message's documents.
pub open spec fn documents_header() -> Seq<char> {
    "[Inbound documents available]"@
}

/// The separator between paragraphs of generated text.
pub open spec fn paragraph_break() -> Seq<char> {
    "\n\n"@
}

/// The description of one attached document, or nothing when it lacks its
/// display name, MIME type or media reference.
pub open spec fn document_section(doc: Json, media: SessionMediaView) -> Option<Seq<char>> {
    match (
        json_str(json_at(doc, "display_name"@)),
        json_str(json_at(doc, "mime_type"@)),
        json_str(json_at(doc, "media_ref"@)),
    ) {
        (Some(name), Some(mime), Some(media_ref)) => Some(
            "filename: "@ + name + "\nmime_type: "@ + mime + "\nlocal_path: "@ + document_path(
                media.data_dir,
                media_ref,
            ) + "\nmedia_ref: "@ + media_ref,
        ),
        _ => None,
    }
}

/// The descriptions of the documents that have one, in order.
pub open spec fn document_sections(docs: Seq<Json>, media: SessionMediaView) -> Seq<Seq<char>>
    decreases docs.len(),
{
    if docs.len() == 0 {
        Seq::empty()
    } else {
        let prev = document_sections(docs.drop_last(), media);
        match document_section(docs.last(), media) {
            Some(s) => prev.push(s),
            None => prev,
        }
    }
}

/// The text that describes the documents attached to a message: a header and
/// one paragraph per described document; nothing when none is described.
pub open spec fn document_context(val: Json, media: SessionMediaView) -> Option<Seq<char>> {
    match json_array(json_at(val, "documents"@)) {
        Some(docs) => {
            let secs = document_sections(docs, media);
            if secs.len() == 0 {
                None
            } else {
                Some(join(seq![documents_header()] + secs, paragraph_break()))
            }
        },
        None => None,
    }
}

/// The sender of a user message: its `name`, where that is a string.
pub open spec fn sender_name(val: Json) -> Option<Seq<char>> {
    json_str(json_at(val, "name"@))
}

/// The part that one content block gives: text blocks give their text, image
/// blocks the image their URL leads to; other blocks give nothing.
pub open spec fn block_part(block: Json, media: SessionMediaView) -> Option<PartView> {
    match json_str(json_at(block, "type"@)) {
        Some(t) => if t == "text"@ {
            match json_str(json_at(block, "text"@)) {
                Some(x) => Some(PartView::Text(x)),
                None => None,
            }
        } else if t == "image_url"@ {
            match json_str(json_at(json_at(block, "image_url"@), "url"@)) {
                Some(u) => image_part_for(u, media),
                None => None,
            }
        } else {
            None
        },
        None => None,
    }
}

/// The parts of a list of content blocks, in order.
pub open spec fn block_parts(blocks: Seq<Json>, media: SessionMediaView) -> Seq<PartView>
    decreases blocks.len(),
{
    if blocks.len() == 0 {
        Seq::empty()
    } else {
        let prev = block_parts(blocks.drop_last(), media);
        match block_part(blocks.last(), media) {
            Some(p) => prev.push(p),
            None => prev,
        }
    }
}

/// `i` is the index of the first text part.
pub open spec fn is_first_text(parts: Seq<PartView>, i: int) -> bool {
    &&& 0 <= i < parts.len()
    &&& parts[i] is Text
    &&& forall|j: int| 0 <= j < i ==> !(#[trigger] parts[j] is Text)
}

/// A text followed by an added paragraph: with a paragraph break unless the
/// text is blank.
pub open spec fn append_paragraph(text: Seq<char>, extra: Seq<char>) -> Seq<char> {
    if trim(text).len() == 0 {
        text + extra
    } else {
        text + paragraph_break() + extra
    }
}

/// The parts with the document description added: to the first text part,
/// or as a new text part in front where there is none.
pub open spec fn with_context(parts: Seq<PartView>, ctx: Option<Seq<char>>) -> Seq<PartView> {
    match ctx {
        None => parts,
        Some(c) => if exists|i: int| is_first_text(parts, i) {
            let i = choose|i: int| is_first_text(parts, i);
            parts.update(i, PartView::Text(append_paragraph(parts[i]->Text_0, c)))
        } else {
            seq![PartView::Text(c)] + parts
        },
    }
}

/// The content of a user message: text with the document description
/// added, the parts of a block list with the description added, or the
/// description alone (empty where there is none).
pub open spec fn user_content(val: Json, media: SessionMediaView) -> UserContentView {
    let ctx = document_context(val, media);
    match json_at(val, "content"@) {
        Json::Text(text) => UserContentView::Text(
            match ctx {
                Some(c) => if trim(text).len() == 0 {
                    c
                } else {
                    text + paragraph_break() + c
                },
                None => text,
            },
        ),
        Json::Array(blocks) => UserContentView::Multimodal(
            with_context(block_parts(blocks, media), ctx),
        ),
        _ => UserContentView::Text(
            match ctx {
                Some(c) => c,
                None => Seq::empty(),
            },
        ),
    }
}

/// The message that a stored user message becomes.
pub open spec fn user_message(val: Json, media: SessionMediaView) -> MessageView {
    MessageView::User { content: user_content(val, media), name: sender_name(val) }
}

fn document_section_of(doc: &JsonValue, media: &SessionMedia) -> (r: Option<String>)
    ensures
        crate::chat::opt_view(r) == document_section(doc@, media@),
{
    let name = match get_str(doc, "display_name") {
        Some(s) => s,
        None => return None,
    };
    let mime = match get_str(doc, "mime_type") {
        Some(s) => s,
        None => return None,
    };
    let media_ref = match get_str(doc, "media_ref") {
        Some(s) => s,
        None => return None,
    };
    let path = document_absolute_path_from_media_ref(media_ref.as_str(), media.data_dir.as_str());
    let mut out = String::new();
    out.append("filename: ");
    out.append(name.as_str());
    out.append("\nmime_type: ");
    out.append(mime.as_str());
    out.append("\nlocal_path: ");
    out.append(path.as_str());
    out.append("\nmedia_ref: ");
    out.append(media_ref.as_str());
    assert(out@ =~= "filename: "@ + name@ + "\nmime_type: "@ + mime@ + "\nlocal_path: "@ + path@
        + "\nmedia_ref: "@ + media_ref@);
    Some(out)
}

/// Describes the documents attached to a stored user message.
pub fn document_context_of(val: &JsonValue, media: &SessionMedia) -> (r: Option<String>)
    ensures
        crate::chat::opt_view(r) == document_context(val@, media@),
{
    let docs = match get(val, "documents") {
        Some(JsonValue::Array(d)) => d,
        _ => return None,
    };
    let ghost dv = json_seq_view(docs@);
    proof {
        lemma_json_seq_view(docs@);
    }
    let mut rendered = String::new();
    rendered.append("[Inbound documents available]");
    let mut any = false;
    assert(dv.take(0) =~= Seq::<Json>::empty());
    assert(seq![documents_header()] + Seq::<Seq<char>>::empty() =~= seq![documents_header()]);
    for i in 0..docs.len()
        invariant
            dv == json_seq_view(docs@),
            dv.len() == docs@.len(),
            forall|j: int| 0 <= j < docs@.len() ==> #[trigger] dv[j] == docs@[j]@,
            any == (document_sections(dv.take(i as int), media@).len() > 0),
            rendered@ == join(
                seq![documents_header()] + document_sections(dv.take(i as int), media@),
                paragraph_break(),
            ),
    {
        let ghost prev = document_sections(dv.take(i as int), media@);
        assert(dv.take(i + 1).drop_last() =~= dv.take(i as int));
        assert(dv.take(i + 1).last() == dv[i as int]);
        if let Some(sec) = document_section_of(&docs[i], media) {
            rendered.append("\n\n");
            rendered.append(sec.as_str());
            let ghost all = seq![documents_header()] + prev.push(sec@);
            assert(all.drop_last() =~= seq![documents_header()] + prev);
            assert(rendered@ =~= join(all, paragraph_break()));
            any = true;
        }
    }
    assert(dv.take(docs@.len() as int) =~= dv);
    if !any {
        None
    } else {
        Some(rendered)
    }
}

/// The sender name of a stored user message.
pub fn sender_name_of(val: &JsonValue) -> (r: Option<String>)
    ensures
        crate::chat::opt_view(r) == sender_name(val@),
{
    match get_str(val, "name") {
        Some(s) => Some(s.clone()),
        None => None,
    }
}

fn block_part_of(block: &JsonValue, media: &SessionMedia) -> (r: Option<ContentPart>)
    ensures
        match r {
            Some(p) => block_part(block@, media@) == Some(p@),
            None => block_part(block@, media@) is None,
        },
{
    let t = match get_str(block, "type") {
        Some(t) => t,
        None => return None,
    };
    if crate::text::str_eq(t.as_str(), "text") {
        match get_str(block, "text") {
            Some(x) => Some(ContentPart::Text(x.clone())),
            None => None,
        }
    } else if crate::text::str_eq(t.as_str(), "image_url") {
        let url = match get(block, "image_url") {
            Some(iu) => get_str(iu, "url"),
            None => None,
        };
        match url {
            Some(u) => image_url_to_content_part(u.as_str(), media),
            None => None,
        }
    } else {
        None
    }
}

fn block_parts_of(blocks: &Vec<JsonValue>, media: &SessionMedia) -> (r: Vec<ContentPart>)
    ensures
        parts_view(r@) == block_parts(json_seq_view(blocks@), media@),
{
    let ghost bv = json_seq_view(blocks@);
    proof {
        lemma_json_seq_view(blocks@);
    }
    let mut parts: Vec<ContentPart> = Vec::new();
    assert(bv.take(0) =~= Seq::<Json>::empty());
    assert(parts_view(parts@) =~= Seq::<PartView>::empty());
    for i in 0..blocks.len()
        invariant
            bv == json_seq_view(blocks@),
            bv.len() == blocks@.len(),
            forall|j: int| 0 <= j < blocks@.len() ==> #[trigger] bv[j] == blocks@[j]@,
            parts_view(parts@) == block_parts(bv.take(i as int), media@),
    {
        let ghost prev = parts@;
        assert(bv.take(i + 1).drop_last() =~= bv.take(i as int));
        assert(bv.take(i + 1).last() == bv[i as int]);
        if let Some(p) = block_part_of(&blocks[i], media) {
            parts.push(p);
            assert(parts_view(parts@) =~= parts_view(prev).push(parts@.last()@));
        }
    }
    assert(bv.take(blocks@.len() as int) =~= bv);
    parts
}

fn with_context_of(parts: Vec<ContentPart>, ctx: Option<String>) -> (r: Vec<ContentPart>)
    ensures
        parts_view(r@) == with_context(parts_view(parts@), crate::chat::opt_view(ctx)),
{
    let c = match ctx {
        Some(c) => c,
        None => return parts,
    };
    let ghost pv = parts_view(parts@);
    let mut ps = parts;
    let mut i: usize = 0;
    while i < ps.len()
        invariant
            pv == parts_view(parts@),
            ps@ == parts@,
            crate::chat::opt_view(ctx) == Some(c@),
            pv.len() == parts@.len(),
            i <= parts@.len(),
            forall|j: int| 0 <= j < i ==> !(#[trigger] pv[j] is Text),
        decreases parts@.len() - i,
    {
        if let ContentPart::Text(_) = &ps[i] {
            let old_part = ps.remove(i);
            let text = match old_part {
                ContentPart::Text(t) => t,
                ContentPart::Image { .. } => {
                    assert(false);
                    String::new()
                },
            };
            let ghost t0 = text@;
            let mut text = text;
            if !is_blank(text.as_str()) {
                text.append("\n\n");
            }
            text.append(c.as_str());
            assert(text@ == append_paragraph(t0, c@));
            ps.insert(i, ContentPart::Text(text));
            proof {
                assert(is_first_text(pv, i as int));
                assert forall|k: int| is_first_text(pv, k) implies k == i by {
                    if k < i {
                    } else if k > i {
                        assert(pv[i as int] is Text);
                    }
                }
                let ch = choose|k: int| is_first_text(pv, k);
                assert(ch == i);
                assert(parts_view(ps@) =~= pv.update(i as int, PartView::Text(append_paragraph(t0, c@))));
            }
            return ps;
        }
        i = i + 1;
    }
    assert(!exists|k: int| is_first_text(pv, k));
    ps.insert(0, ContentPart::Text(c));
    assert(parts_view(ps@) =~= seq![PartView::Text(c@)] + pv);
    ps
}

/// The content of a stored user message, with the attached documents
/// described.
pub fn user_content_of(val: &JsonValue, media: &SessionMedia) -> (r: UserContent)
    ensures
        r@ == user_content(val@, media@),
{
    let ctx = document_context_of(val, media);
    match get(val, "content") {
        Some(JsonValue::Text(text)) => {
            match ctx {
                Some(c) => {
                    if is_blank(text.as_str()) {
                        UserContent::Text(c)
                    } else {
                        let mut s = text.clone();
                        s.append("\n\n");
                        s.append(c.as_str());
                        UserContent::Text(s)
                    }
                },
                None => UserContent::Text(text.clone()),
            }
        },
        Some(JsonValue::Array(blocks)) => {
            let parts = block_parts_of(blocks, media);
            UserContent::Multimodal(with_context_of(parts, ctx))
        },
        _ => match ctx {
            Some(c) => UserContent::Text(c),
            None => UserContent::Text(String::new()),
        },
    }
}

/// The typed message for a stored user message.
pub fn user_message_of(val: &JsonValue, media: &SessionMedia) -> (m: ChatMessage)
    ensures
        m@ == user_message(val@, media@),
{
    let name = sender_name_of(val);
    let content = user_content_of(val, media);
    ChatMessage::User { content, name }
}

} // verus!
