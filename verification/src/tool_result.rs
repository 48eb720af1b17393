use vstd::prelude::*;
use vstd::utf8::{encode_scalar, encode_utf8};
use crate::text::{chars_of, string_of};

verus! {

/// The number of UTF-8 bytes of one character.
pub open spec fn char_width(c: char) -> int {
    encode_scalar(c as u32).len() as int
}

/// How many leading characters of `s` fit, one after the other, into a budget
/// of `budget` UTF-8 bytes.
pub open spec fn fit_count(s: Seq<char>, budget: int) -> nat
    decreases s.len(),
{
    if s.len() == 0 || char_width(s[0]) > budget {
        0
    } else {
        1 + fit_count(s.drop_first(), budget - char_width(s[0]))
    }
}

/// A tool result cut down to the longest prefix of whole characters whose
/// UTF-8 encoding takes at most `max_bytes` bytes.
pub open spec fn sanitized(s: Seq<char>, max_bytes: int) -> Seq<char> {
    s.take(fit_count(s, max_bytes) as int)
}

/// A tool result as it is sent on: sanitized against the byte limit where
/// there is one, unchanged otherwise.
pub open spec fn limited(s: Seq<char>, max_bytes: Option<usize>) -> Seq<char> {
    match max_bytes {
        Some(m) => sanitized(s, m as int),
        None => s,
    }
}

fn utf8_width(c: char) -> (w: usize)
    ensures
        w == char_width(c),
        1 <= w <= 4,
{
    let u = c as u32;
    proof {
        vstd::utf8::char_is_scalar(c);
    }
    if u < 0x80 {
        1
    } else if u < 0x800 {
        2
    } else if u < 0x10000 {
        3
    } else {
        4
    }
}

/// Cuts a tool result down to at most `max_bytes` bytes of UTF-8, keeping
/// whole characters from the start.
pub fn sanitize_tool_result(content: &str, max_bytes: usize) -> (r: String)
    ensures
        r@ == sanitized(content@, max_bytes as int),
{
    let v = chars_of(content);
    let n = v.len();
    let mut i: usize = 0;
    let mut used: usize = 0;
    assert(v@.skip(0) =~= v@);
    while i < n && utf8_width(v[i]) <= max_bytes - used
        invariant
            v@ == content@,
            n == v@.len(),
            i <= n,
            used <= max_bytes,
            fit_count(v@, max_bytes as int) == i + fit_count(v@.skip(i as int), max_bytes - used),
        decreases n - i,
    {
        let w = utf8_width(v[i]);
        assert(v@.skip(i as int).drop_first() =~= v@.skip(i + 1));
        used = used + w;
        i = i + 1;
    }
    assert(fit_count(v@.skip(i as int), max_bytes - used) == 0);
    string_of(&v, 0, i)
}

/// Applies the tool-result byte limit, where there is one.
pub fn maybe_limit_tool_result_content(content: String, max_tool_result_bytes: Option<usize>) -> (r:
    String)
    ensures
        r@ == limited(content@, max_tool_result_bytes),
{
    match max_tool_result_bytes {
        Some(max_bytes) => sanitize_tool_result(content.as_str(), max_bytes),
        None => content,
    }
}

} // verus!
