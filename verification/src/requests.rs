use vstd::prelude::*;
use crate::convert::{role_of, values_view};
use crate::json::{Json, JsonValue, get, get_str, json_at, json_seq_view, json_str, lemma_json_seq_view};
use crate::media::{data_uri_parts, parse_data_uri};
use crate::text::str_eq;

verus! {

/// The texts of a sequence of strings.
pub open spec fn texts_view(s: Seq<String>) -> Seq<Seq<char>> {
    s.map_values(|t: String| t@)
}

/// The URL of a content block that refers to an image that is no data URI.
pub open spec fn block_image_request(block: Json) -> Option<Seq<char>> {
    match json_str(json_at(block, "type"@)) {
        Some(t) => if t == "image_url"@ {
            match json_str(json_at(json_at(block, "image_url"@), "url"@)) {
                Some(u) => if data_uri_parts(u) is None {
                    Some(u)
                } else {
                    None
                },
                None => None,
            }
        } else {
            None
        },
        None => None,
    }
}

/// The image URLs of a list of content blocks that must be loaded.
pub open spec fn blocks_image_requests(blocks: Seq<Json>) -> Seq<Seq<char>>
    decreases blocks.len(),
{
    if blocks.len() == 0 {
        Seq::empty()
    } else {
        let prev = blocks_image_requests(blocks.drop_last());
        match block_image_request(blocks.last()) {
            Some(u) => prev.push(u),
            None => prev,
        }
    }
}

/// The image URLs of a stored message that must be loaded: those of the
/// image blocks of a user message that are no data URIs.
pub open spec fn image_requests_of(val: Json) -> Seq<Seq<char>> {
    if role_of(val) == Some("user"@) {
        match json_at(val, "content"@) {
            Json::Array(blocks) => blocks_image_requests(blocks),
            _ => Seq::empty(),
        }
    } else {
        Seq::empty()
    }
}

/// The image URLs to load for a list of stored messages, in order.
pub open spec fn all_image_requests(vals: Seq<Json>) -> Seq<Seq<char>>
    decreases vals.len(),
{
    if vals.len() == 0 {
        Seq::empty()
    } else {
        all_image_requests(vals.drop_last()) + image_requests_of(vals.last())
    }
}

fn is_user(val: &JsonValue) -> (r: bool)
    ensures
        r == (role_of(val@) == Some("user"@)),
{
    match get_str(val, "role") {
        Some(r) => str_eq(r.as_str(), "user"),
        None => false,
    }
}

fn image_requests(val: &JsonValue) -> (r: Vec<String>)
    ensures
        texts_view(r@) == image_requests_of(val@),
{
    let mut out: Vec<String> = Vec::new();
    assert(texts_view(out@) =~= Seq::<Seq<char>>::empty());
    if !is_user(val) {
        return out;
    }
    let blocks = match get(val, "content") {
        Some(JsonValue::Array(b)) => b,
        _ => return out,
    };
    let ghost bv = json_seq_view(blocks@);
    proof {
        lemma_json_seq_view(blocks@);
    }
    assert(bv.take(0) =~= Seq::<Json>::empty());
    for i in 0..blocks.len()
        invariant
            bv == json_seq_view(blocks@),
            bv.len() == blocks@.len(),
            forall|j: int| 0 <= j < blocks@.len() ==> #[trigger] bv[j] == blocks@[j]@,
            texts_view(out@) == blocks_image_requests(bv.take(i as int)),
    {
        let ghost prev = out@;
        assert(bv.take(i + 1).drop_last() =~= bv.take(i as int));
        assert(bv.take(i + 1).last() == bv[i as int]);
        let block = &blocks[i];
        let is_image = match get_str(block, "type") {
            Some(t) => str_eq(t.as_str(), "image_url"),
            None => false,
        };
        if is_image {
            let url = match get(block, "image_url") {
                Some(iu) => get_str(iu, "url"),
                None => None,
            };
            if let Some(u) = url {
                if parse_data_uri(u.as_str()).is_none() {
                    out.push(u.clone());
                    assert(texts_view(out@) =~= texts_view(prev).push(u@));
                }
            }
        }
    }
    assert(bv.take(blocks@.len() as int) =~= bv);
    out
}

/// Lists the session media images that a conversion of `values` needs
/// loaded: the URLs of the image blocks of user messages that are no data
/// URIs, in order.
pub fn session_media_requests(values: &[JsonValue]) -> (r: Vec<String>)
    ensures
        texts_view(r@) == all_image_requests(values_view(values@)),
{
    let ghost vv = values_view(values@);
    let mut images: Vec<String> = Vec::new();
    assert(vv.take(0) =~= Seq::<Json>::empty());
    assert(texts_view(images@) =~= Seq::<Seq<char>>::empty());
    for i in 0..values.len()
        invariant
            vv == values_view(values@),
            vv.len() == values@.len(),
            texts_view(images@) == all_image_requests(vv.take(i as int)),
    {
        let ghost pi = images@;
        assert(vv.take(i + 1).drop_last() =~= vv.take(i as int));
        assert(vv.take(i + 1).last() == values@[i as int]@);
        let mut more_images = image_requests(&values[i]);
        let ghost mi = more_images@;
        images.append(&mut more_images);
        assert(texts_view(images@) =~= texts_view(pi) + texts_view(mi));
    }
    assert(vv.take(values@.len() as int) =~= vv);
    images
}

} // verus!
