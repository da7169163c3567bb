//! Splitting a markdown document into chunks at its headings.
//!
//! The document is parsed by the `markdown` crate; of the tree that comes
//! back the library reads the top-level blocks, and of each only whether it
//! is a heading, of which depth, and at which byte it starts. A heading of
//! depth 1 to 3 cuts the text: the chunk before it runs from the previous
//! cut (or the start of the text) to the start of the heading, and is kept
//! when it is longer than `MIN_CHUNK_LEN` bytes. What follows the last cut
//! belongs to no chunk.

use crate::text::{slice_between, texts};
use vstd::prelude::*;
use vstd::string::StringSliceAdditionalSpecFns;
use vstd::utf8::{decode_utf8, encode_utf8, is_char_boundary};

verus! {

/// The deepest heading that cuts the text.
pub const MAX_HEADING_DEPTH: u8 = 3;

/// A chunk is kept when it has more bytes than this.
pub const MIN_CHUNK_LEN: usize = 8;

/// A top-level block of a parsed document.
#[derive(Clone, Copy, Debug, PartialEq, Eq, Structural)]
pub enum Block {
    /// A heading of the given depth, with the byte at which it starts
    /// where the parser reports one.
    Heading { depth: u8, start: Option<usize> },
    /// Any other block.
    Other,
}

/// Why a document could not be split.
#[derive(Debug)]
pub enum SplitError {
    /// The parser refused the document, with its message.
    Markdown(String),
    /// A heading does not start at or after the cut before it, within the
    /// text and at the first byte of a character.
    Position,
}

/// The byte at which a block cuts the text, if it does.
pub open spec fn cut_of(block: Block) -> Option<int> {
    match block {
        Block::Heading { depth, start: Some(at) } => if depth <= MAX_HEADING_DEPTH {
            Some(at as int)
        } else {
            None
        },
        _ => None,
    }
}

/// The cuts of the blocks, in their order.
pub open spec fn cut_points(blocks: Seq<Block>) -> Seq<int>
    decreases blocks.len(),
{
    if blocks.len() == 0 {
        Seq::empty()
    } else {
        match cut_of(blocks.last()) {
            Some(at) => cut_points(blocks.drop_last()).push(at),
            None => cut_points(blocks.drop_last()),
        }
    }
}

/// The last of the cuts, or the start of the text where there is none.
pub open spec fn last_cut(cuts: Seq<int>) -> int {
    if cuts.len() == 0 {
        0
    } else {
        cuts.last()
    }
}

/// Whether the cuts can be made in `bytes`: each lies within the text, at
/// the first byte of a character, and none before the cut that precedes
/// it.
pub open spec fn cuts_fit(bytes: Seq<u8>, cuts: Seq<int>) -> bool {
    &&& forall|i: int|
        0 <= i < cuts.len() ==> 0 <= #[trigger] cuts[i] <= bytes.len() && is_char_boundary(
            bytes,
            cuts[i],
        )
    &&& forall|i: int, j: int| 0 <= i <= j < cuts.len() ==> #[trigger] cuts[i] <= #[trigger] cuts[j]
}

/// The chunks that the cuts make of `bytes`: for each cut the bytes from
/// the cut before it, kept where they are more than `MIN_CHUNK_LEN`.
pub open spec fn chunks(bytes: Seq<u8>, cuts: Seq<int>) -> Seq<Seq<u8>>
    decreases cuts.len(),
{
    if cuts.len() == 0 {
        Seq::empty()
    } else {
        let earlier = cuts.drop_last();
        let piece = bytes.subrange(last_cut(earlier), cuts.last());
        if piece.len() > MIN_CHUNK_LEN {
            chunks(bytes, earlier).push(piece)
        } else {
            chunks(bytes, earlier)
        }
    }
}

/// The texts that the chunks encode.
pub open spec fn chunk_texts(bytes: Seq<u8>, cuts: Seq<int>) -> Seq<Seq<char>> {
    chunks(bytes, cuts).map_values(|piece: Seq<u8>| decode_utf8(piece))
}

/// The cuts of the first `i` blocks are the first of the cuts of all.
proof fn lemma_cut_points_prefix(blocks: Seq<Block>, i: int)
    requires
        0 <= i <= blocks.len(),
    ensures
        cut_points(blocks.take(i)).is_prefix_of(cut_points(blocks)),
    decreases blocks.len(),
{
    if i == blocks.len() {
        assert(blocks.take(i) =~= blocks);
    } else {
        let shorter = blocks.drop_last();
        assert(shorter.take(i) =~= blocks.take(i));
        lemma_cut_points_prefix(shorter, i);
    }
}

/// Cuts that do not fit cannot be the first of cuts that fit.
proof fn lemma_misfit_stays(bytes: Seq<u8>, blocks: Seq<Block>, i: int)
    requires
        0 <= i <= blocks.len(),
        !cuts_fit(bytes, cut_points(blocks.take(i))),
    ensures
        !cuts_fit(bytes, cut_points(blocks)),
{
    lemma_cut_points_prefix(blocks, i);
}

/// What a parse hands back, by its views.
pub open spec fn outcome_view(r: Result<Vec<Block>, String>) -> Result<Seq<Block>, Seq<char>> {
    match r {
        Ok(blocks) => Ok(blocks@),
        Err(message) => Err(message@),
    }
}

/// Parses `value` with `markdown::to_mdast` under the default options and
/// hands out the children of the root, each as a `Block`. The contract names
/// the outcome and claims only that it is a function of the text.
#[verifier::external_body]
fn parse_blocks(value: &str) -> (r: Result<Vec<Block>, String>)
    ensures
        outcome_view(r) == parsed_blocks(value@),
{
    let tree = markdown::to_mdast(value, &markdown::ParseOptions::default()).map_err(
        |message| message.to_string(),
    )?;
    let blocks = tree.children().map(|nodes| nodes.iter().map(|node| match node {
        markdown::mdast::Node::Heading(heading) => Block::Heading {
            depth: heading.depth,
            start: heading.position.as_ref().map(|position| position.start.offset),
        },
        _ => Block::Other,
    }).collect());
    Ok(blocks.unwrap_or_default())
}

/// The top-level blocks that the markdown parser finds in a text, or the
/// message with which it refuses the text.
pub uninterp spec fn parsed_blocks(value: Seq<char>) -> Result<Seq<Block>, Seq<char>>;

/// Cuts `value` at the headings among `blocks` and returns the chunks that
/// are kept, or `None` where the cuts do not fit the text.
pub fn chunks_between(value: &str, blocks: &Vec<Block>) -> (r: Option<Vec<String>>)
    ensures
        match r {
            Some(kept) => cuts_fit(encode_utf8(value@), cut_points(blocks@)) && texts(kept@)
                == chunk_texts(encode_utf8(value@), cut_points(blocks@)),
            None => !cuts_fit(encode_utf8(value@), cut_points(blocks@)),
        },
{
    broadcast use vstd::utf8::group_utf8_lib;

    let len: usize = value.as_bytes().len();
    let ghost bytes = encode_utf8(value@);
    let ghost mut cuts: Seq<int> = Seq::empty();
    let mut kept: Vec<String> = Vec::new();
    let mut previous: usize = 0;
    let mut i: usize = 0;
    while i < blocks.len()
        invariant
            i <= blocks.len(),
            bytes == encode_utf8(value@),
            bytes == value.spec_bytes(),
            len == bytes.len(),
            cuts == cut_points(blocks@.take(i as int)),
            cuts_fit(bytes, cuts),
            previous == last_cut(cuts),
            previous <= len,
            is_char_boundary(bytes, previous as int),
            texts(kept@) == chunk_texts(bytes, cuts),
        decreases blocks.len() - i,
    {
        let ghost earlier = cuts;
        let ghost before = texts(kept@);
        proof {
            assert(blocks@.take(i + 1).drop_last() =~= blocks@.take(i as int));
        }
        match blocks[i] {
            Block::Heading { depth, start: Some(at) } => {
                if depth <= MAX_HEADING_DEPTH {
                    proof {
                        cuts = earlier.push(at as int);
                        assert(cuts.drop_last() =~= earlier);
                    }
                    if at < previous || at > len || !value.is_char_boundary(at) {
                        proof {
                            assert(cuts[earlier.len() as int] == at);
                            lemma_misfit_stays(bytes, blocks@, i + 1);
                        }
                        return None;
                    }
                    if at - previous > MIN_CHUNK_LEN {
                        let piece = slice_between(value, previous, at);
                        kept.push(piece);
                        proof {
                            assert(texts(kept@) =~= before.push(
                                decode_utf8(bytes.subrange(previous as int, at as int)),
                            ));
                            assert(chunk_texts(bytes, cuts) =~= chunk_texts(bytes, earlier).push(
                                decode_utf8(bytes.subrange(previous as int, at as int)),
                            ));
                        }
                    }
                    previous = at;
                }
            },
            _ => {},
        }
        i += 1;
    }
    proof {
        assert(blocks@.take(blocks@.len() as int) =~= blocks@);
    }
    Some(kept)
}

/// How the splitting of a document ends.
pub enum SplitOutcome {
    /// The chunks that are kept.
    Chunks(Seq<Seq<char>>),
    /// The parser refused the document, with its message.
    Refused(Seq<char>),
    /// The cuts do not fit the text.
    Misplaced,
}

/// How the splitting of `value` ends when the parser hands back `parsed`.
pub open spec fn split_outcome(value: Seq<char>, parsed: Result<Seq<Block>, Seq<char>>) -> SplitOutcome {
    match parsed {
        Err(message) => SplitOutcome::Refused(message),
        Ok(blocks) => if cuts_fit(encode_utf8(value), cut_points(blocks)) {
            SplitOutcome::Chunks(chunk_texts(encode_utf8(value), cut_points(blocks)))
        } else {
            SplitOutcome::Misplaced
        },
    }
}

/// The outcome that a result of `split_by_headings` stands for.
pub open spec fn outcome_of(r: Result<Vec<String>, SplitError>) -> SplitOutcome {
    match r {
        Ok(kept) => SplitOutcome::Chunks(texts(kept@)),
        Err(SplitError::Markdown(message)) => SplitOutcome::Refused(message@),
        Err(SplitError::Position) => SplitOutcome::Misplaced,
    }
}

/// Cuts `value` at the headings among the blocks that the parser handed
/// back.
pub fn split_parsed(value: &str, parsed: Result<Vec<Block>, String>) -> (r: Result<
    Vec<String>,
    SplitError,
>)
    ensures
        outcome_of(r) == split_outcome(value@, outcome_view(parsed)),
{
    match parsed {
        Err(message) => Err(SplitError::Markdown(message)),
        Ok(blocks) => match chunks_between(value, &blocks) {
            Some(kept) => Ok(kept),
            None => Err(SplitError::Position),
        },
    }
}

/// Splits a markdown document into chunks at its headings of depth 1 to 3.
pub fn split_by_headings(value: &str) -> (r: Result<Vec<String>, SplitError>)
    ensures
        outcome_of(r) == split_outcome(value@, parsed_blocks(value@)),
{
    split_parsed(value, parse_blocks(value))
}

} // verus!
