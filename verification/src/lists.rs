//! Lists of texts kept as one text: the items in their order, a semicolon
//! between each two.

use crate::text::{lemma_boundary_after_ascii, slice_between, texts};
use vstd::prelude::*;
use vstd::string::{StringExecFns, StringSliceAdditionalSpecFns};
use vstd::utf8::{decode_utf8, encode_utf8};

verus! {

/// The byte that separates two items: a semicolon.
pub const SEPARATOR: u8 = 0x3b;

/// The items joined into one text, a semicolon between each two.
pub open spec fn joined(items: Seq<Seq<char>>) -> Seq<char>
    decreases items.len(),
{
    if items.len() == 0 {
        Seq::empty()
    } else if items.len() == 1 {
        items[0]
    } else {
        joined(items.drop_last()) + ";"@ + items.last()
    }
}

/// The first separator of `s` at or after `from`, or `s.len()` where there
/// is none.
pub open spec fn next_separator(s: Seq<u8>, from: int) -> int
    decreases s.len() - from,
{
    if from < 0 || from >= s.len() {
        s.len() as int
    } else if s[from] == SEPARATOR {
        from
    } else {
        next_separator(s, from + 1)
    }
}

/// The pieces of `s` from byte `from` on: what lies before each separator
/// and after the last one.
pub open spec fn pieces_from(s: Seq<u8>, from: int) -> Seq<Seq<u8>>
    decreases s.len() - from,
{
    let at = next_separator(s, from);
    if 0 <= from <= at < s.len() {
        seq![s.subrange(from, at)] + pieces_from(s, at + 1)
    } else {
        seq![s.subrange(from, s.len() as int)]
    }
}

/// The items that a joined text holds: one more than it has separators.
pub open spec fn items_of(text: Seq<char>) -> Seq<Seq<char>> {
    pieces_from(encode_utf8(text), 0).map_values(|piece: Seq<u8>| decode_utf8(piece))
}

/// The first separator at or after `from` is one, and lies in range.
proof fn lemma_next_separator(s: Seq<u8>, from: int)
    requires
        0 <= from <= s.len(),
    ensures
        from <= next_separator(s, from) <= s.len(),
        next_separator(s, from) < s.len() ==> s[next_separator(s, from)] == SEPARATOR,
    decreases s.len() - from,
{
    if from < s.len() && s[from] != SEPARATOR {
        lemma_next_separator(s, from + 1);
    }
}

/// Joins the items into one text.
pub fn join_list(items: &Vec<String>) -> (text: String)
    ensures
        text@ == joined(texts(items@)),
{
    let mut text = String::new();
    let mut i: usize = 0;
    while i < items.len()
        invariant
            i <= items.len(),
            text@ == joined(texts(items@).take(i as int)),
        decreases items.len() - i,
    {
        proof {
            let all = texts(items@);
            assert(all.take(i + 1).drop_last() =~= all.take(i as int));
        }
        if i > 0 {
            text.append(";");
        }
        text.append(items[i].as_str());
        i += 1;
    }
    proof {
        assert(texts(items@).take(items@.len() as int) =~= texts(items@));
    }
    text
}

/// Finds the first separator at or after `from`.
fn find_separator(bytes: &[u8], from: usize) -> (r: usize)
    requires
        from <= bytes@.len(),
    ensures
        r == next_separator(bytes@, from as int),
        from <= r <= bytes@.len(),
{
    let n: usize = bytes.len();
    let mut i: usize = from;
    while i < n
        invariant
            n == bytes@.len(),
            from <= i <= n,
            next_separator(bytes@, from as int) == next_separator(bytes@, i as int),
        decreases n - i,
    {
        if bytes[i] == SEPARATOR {
            return i;
        }
        i += 1;
    }
    n
}

/// Takes a joined text apart.
pub fn split_list(text: &str) -> (items: Vec<String>)
    ensures
        texts(items@) == items_of(text@),
        items.len() >= 1,
{
    broadcast use vstd::utf8::group_utf8_lib;

    let bytes = text.as_bytes();
    let n: usize = bytes.len();
    let ghost decode = |piece: Seq<u8>| decode_utf8(piece);
    let mut items: Vec<String> = Vec::new();
    let mut start: usize = 0;
    loop
        invariant_except_break
            texts(items@) + pieces_from(bytes@, start as int).map_values(decode) == items_of(text@),
        invariant
            n == bytes@.len(),
            bytes@ == text.spec_bytes(),
            bytes@ == encode_utf8(text@),
            vstd::utf8::valid_utf8(bytes@),
            start <= n,
            vstd::utf8::is_char_boundary(bytes@, start as int),
            decode == (|piece: Seq<u8>| decode_utf8(piece)),
        ensures
            texts(items@) == items_of(text@),
            items.len() >= 1,
        decreases n - start,
    {
        let ghost before = texts(items@);
        let at = find_separator(bytes, start);
        proof {
            lemma_next_separator(bytes@, start as int);
            if at < n {
                lemma_boundary_after_ascii(bytes@, at as int);
            } else {
                vstd::utf8::is_char_boundary_start_end_of_seq(bytes@);
            }
        }
        let piece = slice_between(text, start, at);
        items.push(piece);
        if at >= n {
            proof {
                assert(pieces_from(bytes@, start as int).map_values(decode) =~= seq![
                    decode_utf8(bytes@.subrange(start as int, n as int)),
                ]);
                assert(texts(items@) =~= before + pieces_from(bytes@, start as int).map_values(
                    decode,
                ));
            }
            break;
        }
        proof {
            let rest = pieces_from(bytes@, at + 1);
            assert(pieces_from(bytes@, start as int) == seq![
                bytes@.subrange(start as int, at as int),
            ] + rest);
            assert(pieces_from(bytes@, start as int).map_values(decode) =~= seq![
                decode_utf8(bytes@.subrange(start as int, at as int)),
            ] + rest.map_values(decode));
            assert(texts(items@) + rest.map_values(decode) =~= before + pieces_from(
                bytes@,
                start as int,
            ).map_values(decode));
        }
        start = at + 1;
    }
    items
}

} // verus!
