//! Front matter of documents.
//!
//! A document may open with a head fenced by `---` lines. Everything here
//! reads a text as its UTF-8 bytes: the fence is three hyphen-minus bytes,
//! found from left to right and never overlapping, and a text has a head
//! when it holds exactly two fences.

use crate::text::{lemma_boundary_after_ascii, slice_between};
use vstd::prelude::*;
use vstd::string::StringSliceAdditionalSpecFns;
use vstd::utf8::{decode_utf8, encode_utf8, is_char_boundary, valid_utf8};

verus! {

/// The byte that a fence is made of: a hyphen-minus.
pub const FENCE_BYTE: u8 = 0x2d;

/// The number of bytes of a fence.
pub const FENCE_LEN: usize = 3;

/// Whether a fence starts at byte `i` of `s`.
pub open spec fn fence_at(s: Seq<u8>, i: int) -> bool {
    &&& 0 <= i
    &&& i + FENCE_LEN <= s.len()
    &&& s[i] == FENCE_BYTE
    &&& s[i + 1] == FENCE_BYTE
    &&& s[i + 2] == FENCE_BYTE
}

/// The start of the first fence of `s` at or after `from`, or `s.len()`
/// where there is none.
pub open spec fn next_fence(s: Seq<u8>, from: int) -> int
    decreases s.len() - from,
{
    if from < 0 || from + FENCE_LEN > s.len() {
        s.len() as int
    } else if fence_at(s, from) {
        from
    } else {
        next_fence(s, from + 1)
    }
}

/// Where the head and the body of `s` lie, if `s` holds exactly two
/// fences: the head is `s[head_start..head_end]`, the body starts at
/// `body_start`.
pub struct Layout {
    pub head_start: int,
    pub head_end: int,
    pub body_start: int,
}

/// The layout of `s`: the first fence, the next one after it, and no third.
pub open spec fn layout(s: Seq<u8>) -> Option<Layout> {
    let first = next_fence(s, 0);
    let second = next_fence(s, first + FENCE_LEN);
    let third = next_fence(s, second + FENCE_LEN);
    if first < s.len() && second < s.len() && third == s.len() {
        Some(
            Layout {
                head_start: first + FENCE_LEN,
                head_end: second,
                body_start: second + FENCE_LEN,
            },
        )
    } else {
        None
    }
}

/// The bytes between the two fences of `s`.
pub open spec fn head_bytes(s: Seq<u8>) -> Option<Seq<u8>> {
    match layout(s) {
        Some(l) => Some(s.subrange(l.head_start, l.head_end)),
        None => None,
    }
}

/// The bytes after the second fence of `s`.
pub open spec fn body_bytes(s: Seq<u8>) -> Option<Seq<u8>> {
    match layout(s) {
        Some(l) => Some(s.subrange(l.body_start, s.len() as int)),
        None => None,
    }
}

/// The first fence at or after `from` is a fence indeed, and lies in range.
proof fn lemma_next_fence(s: Seq<u8>, from: int)
    requires
        0 <= from,
    ensures
        next_fence(s, from) == s.len() || (from <= next_fence(s, from) && fence_at(
            s,
            next_fence(s, from),
        )),
        forall|i: int| from <= i < next_fence(s, from) ==> !fence_at(s, i),
    decreases s.len() - from,
{
    if from + FENCE_LEN <= s.len() && !fence_at(s, from) {
        lemma_next_fence(s, from + 1);
    }
}

/// The text that the bytes `from..to` of `s` encode.
pub open spec fn text_between(s: Seq<u8>, from: int, to: int) -> Seq<char> {
    decode_utf8(s.subrange(from, to))
}

/// Three fence bytes are the text `---`.
proof fn lemma_fence_text(s: Seq<u8>, at: int)
    requires
        fence_at(s, at),
    ensures
        text_between(s, at, at + FENCE_LEN) == "---"@,
{
    broadcast use vstd::utf8::group_utf8_lib;

    reveal_strlit("---");
    let fence = "---"@;
    assert(vstd::utf8::is_ascii_chars(fence));
    assert(encode_utf8(fence) =~= s.subrange(at, at + FENCE_LEN));
}

/// Valid bytes decode piece by piece: the text of `from..to` is the text of
/// `from..mid` followed by the text of `mid..to`, for boundaries
/// `from <= mid <= to`.
proof fn lemma_text_between_splits(s: Seq<u8>, from: int, mid: int, to: int)
    requires
        valid_utf8(s),
        0 <= from <= mid <= to <= s.len(),
        is_char_boundary(s, from),
        is_char_boundary(s, mid),
        is_char_boundary(s, to),
    ensures
        text_between(s, from, to) == text_between(s, from, mid) + text_between(s, mid, to),
{
    broadcast use vstd::utf8::group_utf8_lib;

    let upto = s.subrange(0, to);
    let part = s.subrange(from, to);
    if from < upto.len() {
        vstd::utf8::is_char_boundary_iff_not_is_continuation_byte(s, from);
        vstd::utf8::is_char_boundary_iff_not_is_continuation_byte(upto, from);
    }
    assert(part =~= upto.subrange(from, upto.len() as int));
    if mid - from < part.len() {
        vstd::utf8::is_char_boundary_iff_not_is_continuation_byte(s, mid);
        vstd::utf8::is_char_boundary_iff_not_is_continuation_byte(part, mid - from);
    }
    vstd::utf8::decode_utf8_split(part, mid - from);
    assert(part.subrange(0, mid - from) =~= s.subrange(from, mid));
    assert(part.subrange(mid - from, part.len() as int) =~= s.subrange(mid, to));
}

/// A text with a head is made of five parts: what stands before the first
/// fence, the fence, the head, the fence again, and the body.
pub proof fn lemma_layout_splits_text(text: Seq<char>)
    requires
        layout(encode_utf8(text)) is Some,
    ensures
        ({
            let bytes = encode_utf8(text);
            let found = layout(bytes)->0;
            text == text_between(bytes, 0, found.head_start - FENCE_LEN) + "---"@ + text_between(
                bytes,
                found.head_start,
                found.head_end,
            ) + "---"@ + text_between(bytes, found.body_start, bytes.len() as int)
        }),
{
    broadcast use vstd::utf8::group_utf8_lib;

    let bytes = encode_utf8(text);
    let found = layout(bytes)->0;
    let first = found.head_start - FENCE_LEN;
    let second = found.head_end;
    let end = bytes.len() as int;
    lemma_next_fence(bytes, 0);
    lemma_next_fence(bytes, first + FENCE_LEN);
    lemma_boundary_after_ascii(bytes, first);
    lemma_boundary_after_ascii(bytes, first + 2);
    lemma_boundary_after_ascii(bytes, second);
    lemma_boundary_after_ascii(bytes, second + 2);
    lemma_fence_text(bytes, first);
    lemma_fence_text(bytes, second);
    lemma_text_between_splits(bytes, 0, first, end);
    lemma_text_between_splits(bytes, first, first + FENCE_LEN, end);
    lemma_text_between_splits(bytes, first + FENCE_LEN, second, end);
    lemma_text_between_splits(bytes, second, second + FENCE_LEN, end);
}

/// Finds the first fence at or after `from`.
fn find_fence(bytes: &[u8], from: usize) -> (r: usize)
    requires
        from <= bytes@.len(),
    ensures
        r == next_fence(bytes@, from as int),
        from <= r <= bytes@.len(),
{
    let n: usize = bytes.len();
    let mut i: usize = from;
    while n - i >= FENCE_LEN
        invariant
            n == bytes@.len(),
            from <= i <= n,
            next_fence(bytes@, from as int) == next_fence(bytes@, i as int),
        decreases n - i,
    {
        if bytes[i] == FENCE_BYTE && bytes[i + 1] == FENCE_BYTE && bytes[i + 2] == FENCE_BYTE {
            return i;
        }
        i += 1;
    }
    n
}

/// The head of a document: the text between its two `---` fences. A text
/// that does not hold exactly two fences has no head.
pub fn extract_head(input: &str) -> (r: Option<String>)
    ensures
        match head_bytes(encode_utf8(input@)) {
            Some(head) => r is Some && r->0@ == decode_utf8(head),
            None => r is None,
        },
{
    broadcast use vstd::utf8::group_utf8_lib;

    let bytes = input.as_bytes();
    let n: usize = bytes.len();
    let first = find_fence(bytes, 0);
    if first >= n {
        return None;
    }
    proof {
        lemma_next_fence(bytes@, 0);
    }
    let second = find_fence(bytes, first + FENCE_LEN);
    if second >= n {
        return None;
    }
    proof {
        lemma_next_fence(bytes@, first + FENCE_LEN);
    }
    let third = find_fence(bytes, second + FENCE_LEN);
    if third < n {
        return None;
    }
    proof {
        lemma_boundary_after_ascii(bytes@, first + 2);
        lemma_boundary_after_ascii(bytes@, second as int);
    }
    Some(slice_between(input, first + FENCE_LEN, second))
}

/// The body of a document: the text after the second of its two `---`
/// fences. A text that does not hold exactly two fences is its own body.
pub fn remove_head(input: String) -> (r: String)
    ensures
        match body_bytes(encode_utf8(input@)) {
            Some(body) => r@ == decode_utf8(body),
            None => r@ == input@,
        },
{
    broadcast use vstd::utf8::group_utf8_lib;

    let text = input.as_str();
    let bytes = text.as_bytes();
    let n: usize = bytes.len();
    let first = find_fence(bytes, 0);
    if first >= n {
        return input;
    }
    proof {
        lemma_next_fence(bytes@, 0);
    }
    let second = find_fence(bytes, first + FENCE_LEN);
    if second >= n {
        return input;
    }
    proof {
        lemma_next_fence(bytes@, first + FENCE_LEN);
    }
    let third = find_fence(bytes, second + FENCE_LEN);
    if third < n {
        return input;
    }
    proof {
        lemma_boundary_after_ascii(bytes@, second + 2);
        vstd::utf8::is_char_boundary_start_end_of_seq(bytes@);
    }
    slice_between(text, second + FENCE_LEN, n)
}

/// The fields of a document head.
#[derive(Debug)]
pub struct Head {
    pub subcategory: String,
    pub layout: String,
    pub title: String,
    pub desc: String,
}

/// Finds the subcategory: the quoted text after `subcategory: `.
pub const SUBCATEGORY_PATTERN: &'static str = r#"subcategory: \"(.*?)\""#;

/// Finds the layout: the quoted text after `layout: `.
pub const LAYOUT_PATTERN: &'static str = r#"layout: \"(.*?)\""#;

/// Finds the title: the quoted text after `page_title: `.
pub const TITLE_PATTERN: &'static str = r#"page_title: \"(.*?)\""#;

/// Finds the description: the line that follows `description: |-`.
pub const DESCRIPTION_PATTERN: &'static str = r#"description: \|-\s*(.*)"#;

/// What the first capture group of the leftmost match of `pattern` in
/// `haystack` holds: `None` where `pattern` is no regular expression, where
/// it matches nowhere, or where the group took no part in the match.
pub uninterp spec fn first_group(pattern: Seq<char>, haystack: Seq<char>) -> Option<Seq<char>>;

/// Compiles `pattern` with `regex::Regex::new`, searches `haystack` with
/// `Regex::captures` and reads group 1 with `Captures::get`. The contract
/// names the outcome and claims only that it is a function of the two
/// texts.
#[verifier::external_body]
fn capture_first_group(pattern: &str, haystack: &str) -> (r: Option<String>)
    ensures
        r is Some == first_group(pattern@, haystack@) is Some,
        r is Some ==> r->0@ == first_group(pattern@, haystack@)->0,
{
    let expression = regex::Regex::new(pattern).ok()?;
    let captures = expression.captures(haystack)?;
    Some(captures.get(1)?.as_str().to_string())
}

/// The text that was found, or the empty text.
pub open spec fn found_or_empty(found: Option<Seq<char>>) -> Seq<char> {
    match found {
        Some(text) => text,
        None => Seq::empty(),
    }
}

/// The text that was found, or the empty text.
fn text_or_empty(found: Option<String>) -> (r: String)
    ensures
        r@ == found_or_empty(
            match found {
                Some(text) => Some(text@),
                None => None,
            },
        ),
{
    match found {
        Some(text) => text,
        None => String::new(),
    }
}

impl Head {
    /// The head whose fields are what the four searches found, a field
    /// being empty where its search found nothing.
    pub fn from_captures(
        subcategory: Option<String>,
        layout: Option<String>,
        title: Option<String>,
        desc: Option<String>,
    ) -> (head: Head)
        ensures
            head.subcategory@ == found_or_empty(
                match subcategory {
                    Some(text) => Some(text@),
                    None => None,
                },
            ),
            head.layout@ == found_or_empty(
                match layout {
                    Some(text) => Some(text@),
                    None => None,
                },
            ),
            head.title@ == found_or_empty(
                match title {
                    Some(text) => Some(text@),
                    None => None,
                },
            ),
            head.desc@ == found_or_empty(
                match desc {
                    Some(text) => Some(text@),
                    None => None,
                },
            ),
    {
        Head {
            subcategory: text_or_empty(subcategory),
            layout: text_or_empty(layout),
            title: text_or_empty(title),
            desc: text_or_empty(desc),
        }
    }
}

/// Reads the fields of a head: each is the first group of its pattern in
/// `input`, or empty where the pattern finds nothing.
pub fn extract_head_values(input: &str) -> (head: Head)
    ensures
        head.subcategory@ == found_or_empty(first_group(SUBCATEGORY_PATTERN@, input@)),
        head.layout@ == found_or_empty(first_group(LAYOUT_PATTERN@, input@)),
        head.title@ == found_or_empty(first_group(TITLE_PATTERN@, input@)),
        head.desc@ == found_or_empty(first_group(DESCRIPTION_PATTERN@, input@)),
{
    let subcategory = capture_first_group(SUBCATEGORY_PATTERN, input);
    let layout = capture_first_group(LAYOUT_PATTERN, input);
    let title = capture_first_group(TITLE_PATTERN, input);
    let desc = capture_first_group(DESCRIPTION_PATTERN, input);
    Head::from_captures(subcategory, layout, title, desc)
}

} // verus!
