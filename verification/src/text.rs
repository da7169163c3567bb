//! Texts read as their UTF-8 bytes: prefix and suffix tests, and slices.

use vstd::prelude::*;
use vstd::string::StringSliceAdditionalSpecFns;
use vstd::utf8::{
    decode_utf8, encode_utf8, is_char_boundary, length_of_first_scalar, pop_first_scalar,
    valid_utf8,
};

verus! {

/// The views of the texts of `v`.
pub open spec fn texts(v: Seq<String>) -> Seq<Seq<char>> {
    v.map_values(|s: String| s@)
}

/// Whether the bytes of `text` begin with the bytes of `prefix`.
pub open spec fn starts_with(text: Seq<char>, prefix: Seq<char>) -> bool {
    encode_utf8(prefix).is_prefix_of(encode_utf8(text))
}

/// Whether the bytes of `text` end with the bytes of `suffix`.
pub open spec fn ends_with(text: Seq<char>, suffix: Seq<char>) -> bool {
    encode_utf8(suffix).is_suffix_of(encode_utf8(text))
}

/// Whether `part` is what `whole` holds from byte `at` on, for the length
/// of `part`.
fn matches_at(whole: &[u8], at: usize, part: &[u8]) -> (r: bool)
    requires
        at + part@.len() <= whole@.len(),
    ensures
        r == (whole@.subrange(at as int, at + part@.len()) =~= part@),
{
    let n: usize = part.len();
    let total: usize = whole.len();
    let mut i: usize = 0;
    while i < n
        invariant
            n == part@.len(),
            total == whole@.len(),
            at + n <= total,
            i <= n,
            forall|j: int| 0 <= j < i ==> whole@[at + j] == part@[j],
        decreases n - i,
    {
        if whole[at + i] != part[i] {
            return false;
        }
        i += 1;
    }
    true
}

/// Whether two texts are the same, decided on their bytes.
pub fn same_text(a: &str, b: &str) -> (r: bool)
    ensures
        r == (a@ == b@),
{
    broadcast use vstd::utf8::group_utf8_lib;

    let left = a.as_bytes();
    let right = b.as_bytes();
    if left.len() != right.len() {
        return false;
    }
    let same = matches_at(left, 0, right);
    proof {
        assert(left@.subrange(0, left@.len() as int) =~= left@);
        if same {
            assert(decode_utf8(encode_utf8(a@)) == decode_utf8(encode_utf8(b@)));
        }
    }
    same
}

/// Decides `starts_with`.
pub fn has_prefix(text: &str, prefix: &str) -> (r: bool)
    ensures
        r == starts_with(text@, prefix@),
{
    let whole = text.as_bytes();
    let part = prefix.as_bytes();
    if part.len() > whole.len() {
        return false;
    }
    matches_at(whole, 0, part)
}

/// Decides `ends_with`.
pub fn has_suffix(text: &str, suffix: &str) -> (r: bool)
    ensures
        r == ends_with(text@, suffix@),
{
    let whole = text.as_bytes();
    let part = suffix.as_bytes();
    if part.len() > whole.len() {
        return false;
    }
    matches_at(whole, whole.len() - part.len(), part)
}

/// In valid UTF-8 a character starts right after every one-byte character.
pub(crate) proof fn lemma_boundary_after_ascii(bytes: Seq<u8>, i: int)
    requires
        valid_utf8(bytes),
        0 <= i < bytes.len(),
        bytes[i] < 0x80,
    ensures
        is_char_boundary(bytes, i),
        is_char_boundary(bytes, i + 1),
    decreases bytes.len(),
{
    vstd::utf8::is_char_boundary_iff_not_is_continuation_byte(bytes, i);
    if i == 0 {
        reveal_with_fuel(is_char_boundary, 2);
    } else {
        reveal_with_fuel(is_char_boundary, 2);
        let n = length_of_first_scalar(bytes);
        let rest = pop_first_scalar(bytes);
        lemma_boundary_after_ascii(rest, i - n);
    }
}

/// Takes the bytes `from..to` of `s` as a text of their own.
pub(crate) fn slice_between(s: &str, from: usize, to: usize) -> (r: String)
    requires
        from <= to <= s.spec_bytes().len(),
        is_char_boundary(s.spec_bytes(), from as int),
        is_char_boundary(s.spec_bytes(), to as int),
    ensures
        r@ == decode_utf8(s.spec_bytes().subrange(from as int, to as int)),
{
    broadcast use vstd::utf8::group_utf8_lib;

    let (upto, _) = s.split_at(to);
    proof {
        let b = s.spec_bytes();
        let u = upto.spec_bytes();
        if (from as int) < u.len() {
            vstd::utf8::is_char_boundary_iff_not_is_continuation_byte(b, from as int);
            vstd::utf8::is_char_boundary_iff_not_is_continuation_byte(u, from as int);
        } else {
            vstd::utf8::is_char_boundary_start_end_of_seq(u);
        }
    }
    let (_, part) = upto.split_at(from);
    proof {
        assert(part.spec_bytes() =~= s.spec_bytes().subrange(from as int, to as int));
    }
    part.to_owned()
}

} // verus!
