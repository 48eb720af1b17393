use vstd::prelude::*;
use crate::chat::{ContentPart, PartView, clone_part};
use crate::text::{chars_of, lookup, str_eq, string_of};

verus! {

/// The text after the last `.` of `s`; all of `s` where it has none.
pub open spec fn after_last_dot(s: Seq<char>) -> Seq<char>
    decreases s.len(),
{
    if s.len() == 0 {
        s
    } else if s.last() == '.' {
        Seq::empty()
    } else {
        after_last_dot(s.drop_last()).push(s.last())
    }
}

/// A character with ASCII upper case turned into lower case.
pub open spec fn ascii_lower_char(c: char) -> char {
    if 'A' <= c && c <= 'Z' {
        ((c as u32) + 32) as char
    } else {
        c
    }
}

/// A text with ASCII upper case turned into lower case.
pub open spec fn ascii_lower(s: Seq<char>) -> Seq<char> {
    s.map_values(|c: char| ascii_lower_char(c))
}

/// The image MIME type for a lower-case file extension; JPEG by default.
pub open spec fn image_mime_for_extension(ext: Seq<char>) -> Seq<char> {
    if ext == "png"@ {
        "image/png"@
    } else if ext == "jpg"@ || ext == "jpeg"@ {
        "image/jpeg"@
    } else if ext == "gif"@ {
        "image/gif"@
    } else if ext == "webp"@ {
        "image/webp"@
    } else if ext == "svg"@ {
        "image/svg+xml"@
    } else {
        "image/jpeg"@
    }
}

/// The image MIME type that a file name's extension suggests, ignoring case.
pub open spec fn image_mime_of_filename(filename: Seq<char>) -> Seq<char> {
    image_mime_for_extension(ascii_lower(after_last_dot(filename)))
}

/// Guesses the image MIME type of a file from its extension, ignoring ASCII
/// case; anything unknown is taken for JPEG.
pub fn mime_from_filename(filename: &str) -> (r: String)
    ensures
        r@ == image_mime_of_filename(filename@),
{
    let v = chars_of(filename);
    let n = v.len();
    let mut j: usize = n;
    assert(v@.take(n as int) =~= v@);
    assert(v@.skip(n as int) =~= Seq::<char>::empty());
    while j > 0 && v[j - 1] != '.'
        invariant
            v@ == filename@,
            n == v@.len(),
            j <= n,
            after_last_dot(v@) == after_last_dot(v@.take(j as int)) + v@.skip(j as int),
        decreases j,
    {
        let ghost t = v@.take(j as int);
        assert(t.drop_last() =~= v@.take(j - 1));
        assert(after_last_dot(t) == after_last_dot(t.drop_last()).push(t.last()));
        assert(after_last_dot(v@.take(j - 1)).push(v@[j - 1]) + v@.skip(j as int)
            =~= after_last_dot(v@.take(j - 1)) + v@.skip(j - 1));
        j = j - 1;
    }
    assert(after_last_dot(v@) == v@.skip(j as int)) by {
        if j == 0 {
            assert(v@.take(0) =~= Seq::<char>::empty());
            assert(v@.skip(0) =~= v@);
        } else {
            assert(v@.take(j as int).last() == '.');
        }
    }
    let mut lower: Vec<char> = Vec::new();
    let mut i: usize = j;
    while i < n
        invariant
            v@ == filename@,
            n == v@.len(),
            j <= i <= n,
            lower@ == ascii_lower(v@.subrange(j as int, i as int)),
        decreases n - i,
    {
        let c = v[i];
        let d = if 'A' <= c && c <= 'Z' {
            (((c as u32) + 32) as u8) as char
        } else {
            c
        };
        assert(d == ascii_lower_char(c));
        lower.push(d);
        assert(v@.subrange(j as int, i + 1) =~= v@.subrange(j as int, i as int).push(c));
        assert(lower@ =~= ascii_lower(v@.subrange(j as int, i + 1)));
        i = i + 1;
    }
    assert(v@.subrange(j as int, n as int) =~= v@.skip(j as int));
    let ext = string_of(&lower, 0, lower.len());
    assert(lower@.subrange(0, lower@.len() as int) =~= lower@);
    let e = ext.as_str();
    if str_eq(e, "png") {
        "image/png".to_owned()
    } else if str_eq(e, "jpg") || str_eq(e, "jpeg") {
        "image/jpeg".to_owned()
    } else if str_eq(e, "gif") {
        "image/gif".to_owned()
    } else if str_eq(e, "webp") {
        "image/webp".to_owned()
    } else if str_eq(e, "svg") {
        "image/svg+xml".to_owned()
    } else {
        "image/jpeg".to_owned()
    }
}

/// Shortens a URL to its first 80 characters, for log lines.
pub fn truncate_url(url: &str) -> (r: String)
    ensures
        r@ == url@.take(if url@.len() < 80 { url@.len() as int } else { 80 }),
{
    let v = chars_of(url);
    let k: usize = if v.len() < 80 {
        v.len()
    } else {
        80
    };
    string_of(&v, 0, k)
}

/// `pat` stands in `s` at index `i`.
pub open spec fn occurs_at(s: Seq<char>, pat: Seq<char>, i: int) -> bool {
    0 <= i && i + pat.len() <= s.len() && s.subrange(i, i + pat.len()) == pat
}

/// The first index from `i` on where `pat` stands in `s`.
pub open spec fn find_from(s: Seq<char>, pat: Seq<char>, i: int) -> Option<int>
    decreases s.len() + 1 - i,
{
    if i < 0 || i + pat.len() > s.len() {
        None
    } else if s.subrange(i, i + pat.len()) == pat {
        Some(i)
    } else {
        find_from(s, pat, i + 1)
    }
}

/// The scheme prefix of a data URI.
pub open spec fn data_prefix() -> Seq<char> {
    seq!['d', 'a', 't', 'a', ':']
}

/// The separator between the media type and the payload of a base64 data URI.
pub open spec fn base64_separator() -> Seq<char> {
    seq![';', 'b', 'a', 's', 'e', '6', '4', ',']
}

/// A base64 data URI `data:<media type>;base64,<payload>` split into its
/// media type and payload, at the first separator; `None` for anything else.
pub open spec fn data_uri_parts(url: Seq<char>) -> Option<(Seq<char>, Seq<char>)> {
    if url.len() >= 5 && url.take(5) == data_prefix() {
        let rest = url.skip(5);
        match find_from(rest, base64_separator(), 0) {
            Some(k) => Some((rest.take(k), rest.skip(k + 8))),
            None => None,
        }
    } else {
        None
    }
}

/// Whether `v[start..start + pat.len()]` equals `pat`.
fn matches_at(v: &Vec<char>, start: usize, pat: &Vec<char>) -> (r: bool)
    requires
        start + pat@.len() <= v@.len(),
    ensures
        r == (v@.subrange(start as int, start + pat@.len()) == pat@),
{
    let vl = v.len();
    let mut k: usize = 0;
    while k < pat.len()
        invariant
            start + pat@.len() <= v@.len(),
            vl == v@.len(),
            k <= pat@.len(),
            forall|t: int| 0 <= t < k ==> v@[start + t] == pat@[t],
        decreases pat@.len() - k,
    {
        if v[start + k] != pat[k] {
            assert(v@.subrange(start as int, start + pat@.len())[k as int] != pat@[k as int]);
            return false;
        }
        k = k + 1;
    }
    assert(v@.subrange(start as int, start + pat@.len()) =~= pat@);
    true
}

/// Splits a base64 data URI into its media type and its payload.
pub fn parse_data_uri(url: &str) -> (r: Option<(String, String)>)
    ensures
        match r {
            Some((m, d)) => data_uri_parts(url@) == Some((m@, d@)),
            None => data_uri_parts(url@) is None,
        },
{
    let v = chars_of(url);
    let n = v.len();
    let prefix: Vec<char> = vec!['d', 'a', 't', 'a', ':'];
    assert(prefix@ =~= data_prefix());
    if n < 5 || !matches_at(&v, 0, &prefix) {
        assert(n >= 5 ==> v@.subrange(0, 5) =~= v@.take(5));
        return None;
    }
    assert(v@.subrange(0, 5) =~= v@.take(5));
    let ghost rest = v@.skip(5);
    let sep: Vec<char> = vec![';', 'b', 'a', 's', 'e', '6', '4', ','];
    assert(sep@ =~= base64_separator());
    let mut i: usize = 0;
    while n - i >= 13
        invariant
            v@ == url@,
            n == v@.len(),
            n >= 5,
            i <= n,
            v@.take(5) == data_prefix(),
            rest == v@.skip(5),
            sep@ == base64_separator(),
            find_from(rest, base64_separator(), 0) == find_from(rest, base64_separator(), i as int),
        decreases n - i,
    {
        let hit = matches_at(&v, i + 5, &sep);
        assert(v@.subrange(i + 5, i + 5 + 8) =~= rest.subrange(i as int, i + 8));
        if hit {
            let media_type = string_of(&v, 5, i + 5);
            let data = string_of(&v, i + 13, n);
            assert(media_type@ =~= rest.take(i as int));
            assert(data@ =~= rest.skip(i + 8));
            assert(find_from(rest, base64_separator(), i as int) == Some(i as int));
            return Some((media_type, data));
        }
        i = i + 1;
    }
    None
}

/// What a conversion needs from outside the messages: the images loaded for
/// session media URLs, and the data directory under whose `sessions`
/// directory the session files live.
pub struct SessionMedia {
    pub images: Vec<(String, ContentPart)>,
    pub data_dir: String,
}

/// The model of a `SessionMedia`.
pub struct SessionMediaView {
    pub images: Seq<(Seq<char>, PartView)>,
    pub data_dir: Seq<char>,
}

impl View for SessionMedia {
    type V = SessionMediaView;

    open spec fn view(&self) -> SessionMediaView {
        SessionMediaView {
            images: self.images@.map_values(|e: (String, ContentPart)| (e.0@, e.1@)),
            data_dir: self.data_dir@,
        }
    }
}

impl SessionMedia {
    /// No loaded images, and an empty data directory.
    pub fn new() -> (m: SessionMedia)
        ensures
            m@.images.len() == 0,
            m@.data_dir.len() == 0,
    {
        SessionMedia { images: Vec::new(), data_dir: String::new() }
    }
}

/// The image part for an image URL: the image of a base64 data URI, else the
/// image loaded for that URL, else nothing.
pub open spec fn image_part_for(url: Seq<char>, media: SessionMediaView) -> Option<PartView> {
    match data_uri_parts(url) {
        Some((m, d)) => Some(PartView::Image { media_type: m, data: d }),
        None => lookup(media.images, url),
    }
}

/// Converts an image URL into an image part. Data URIs are parsed in place;
/// other URLs take the image loaded for them in `media`, if any.
pub fn image_url_to_content_part(url: &str, media: &SessionMedia) -> (r: Option<ContentPart>)
    ensures
        match r {
            Some(p) => image_part_for(url@, media@) == Some(p@),
            None => image_part_for(url@, media@) is None,
        },
{
    if let Some((media_type, data)) = parse_data_uri(url) {
        return Some(ContentPart::Image { media_type, data });
    }
    let ghost s = media@.images;
    assert(s.skip(0) =~= s);
    let mut i: usize = 0;
    while i < media.images.len()
        invariant
            data_uri_parts(url@) is None,
            s == media@.images,
            s.len() == media.images@.len(),
            i <= s.len(),
            lookup(s, url@) == lookup(s.skip(i as int), url@),
        decreases s.len() - i,
    {
        let e = &media.images[i];
        assert(s.skip(i as int).len() > 0);
        assert(s.skip(i as int)[0] == s[i as int]);
        if str_eq(e.0.as_str(), url) {
            return Some(clone_part(&e.1));
        }
        assert(s.skip(i as int).drop_first() =~= s.skip(i + 1));
        i = i + 1;
    }
    None
}

/// A path that starts at the root (a Unix path starting with `/`).
pub open spec fn is_absolute_path(p: Seq<char>) -> bool {
    p.len() > 0 && p[0] == '/'
}

/// `base` joined with `rel` as `Path::join` does on Unix: an absolute `rel`
/// replaces `base`; otherwise a `/` goes between them unless `base` is empty
/// or ends with one.
pub open spec fn join_path(base: Seq<char>, rel: Seq<char>) -> Seq<char> {
    if is_absolute_path(rel) {
        rel
    } else if base.len() == 0 || base.last() == '/' {
        base + rel
    } else {
        base + seq!['/'] + rel
    }
}

/// The local path of a document: its media reference where that is
/// absolute, else the reference under the `sessions` directory of the data
/// directory.
pub open spec fn document_path(data_dir: Seq<char>, media_ref: Seq<char>) -> Seq<char> {
    if is_absolute_path(media_ref) {
        media_ref
    } else {
        join_path(join_path(data_dir, "sessions"@), media_ref)
    }
}

fn starts_with_root(p: &str) -> (r: bool)
    ensures
        r == is_absolute_path(p@),
{
    let v = chars_of(p);
    v.len() > 0 && v[0] == '/'
}

fn join_path_of(base: &str, rel: &str) -> (r: String)
    ensures
        r@ == join_path(base@, rel@),
{
    if starts_with_root(rel) {
        return rel.to_owned();
    }
    let v = chars_of(base);
    let mut out = base.to_owned();
    if v.len() > 0 && v[v.len() - 1] != '/' {
        crate::text::push_char(&mut out, '/');
    }
    out.append(rel);
    out
}

/// The local path of a document from its media reference.
pub fn document_absolute_path_from_media_ref(media_ref: &str, data_dir: &str) -> (r: String)
    ensures
        r@ == document_path(data_dir@, media_ref@),
{
    if starts_with_root(media_ref) {
        return media_ref.to_owned();
    }
    let sessions = join_path_of(data_dir, "sessions");
    join_path_of(sessions.as_str(), media_ref)
}

/// The model of the standard base64 encoding (with padding) of some bytes.
pub uninterp spec fn base64_standard(data: Seq<u8>) -> Seq<char>;

/// Calls `base64::Engine::encode` on the `STANDARD` engine: the text is the
/// one that `base64_standard` names for the bytes.
#[verifier::external_body]
fn base64_encode(data: &[u8]) -> (s: String)
    ensures
        s@ == base64_standard(data@),
{
    base64::Engine::encode(&base64::engine::general_purpose::STANDARD, data)
}

/// The image part for session media read from disk: the optimized image
/// where one was made, else the raw bytes with a MIME type guessed from the
/// file name (`image` where the path has none).
pub fn session_media_image_part(
    file_name: Option<&str>,
    bytes: &[u8],
    optimized: Option<(Vec<u8>, String)>,
) -> (p: ContentPart)
    ensures
        p@ == match optimized {
            Some((d, m)) => PartView::Image { media_type: m@, data: base64_standard(d@) },
            None => PartView::Image {
                media_type: image_mime_of_filename(
                    match file_name {
                        Some(f) => f@,
                        None => "image"@,
                    },
                ),
                data: base64_standard(bytes@),
            },
        },
{
    match optimized {
        Some((data, media_type)) => {
            let encoded = base64_encode(data.as_slice());
            ContentPart::Image { media_type, data: encoded }
        },
        None => {
            let name = match file_name {
                Some(f) => f,
                None => "image",
            };
            ContentPart::Image { media_type: mime_from_filename(name), data: base64_encode(bytes) }
        },
    }
}

} // verus!
