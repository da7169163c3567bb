//! From a fetched document to what is embedded: the context that its head
//! gives, the chunks of its body, and the payload of each chunk.

use crate::encoder::{
    body_bytes, extract_head, extract_head_values, first_group, found_or_empty, head_bytes,
    remove_head, Head, DESCRIPTION_PATTERN, TITLE_PATTERN,
};
use crate::headings::{
    outcome_of, parsed_blocks, split_by_headings, split_outcome, SplitError, SplitOutcome,
};
use crate::text::texts;
use vstd::prelude::*;
use vstd::string::StringExecFns;
use vstd::utf8::{decode_utf8, encode_utf8};

verus! {

/// What is embedded of a document.
#[derive(Debug)]
pub struct Prepared {
    /// The title and the description of the head.
    pub context: String,
    /// The chunks of the body.
    pub chunks: Vec<String>,
}

/// The head of a document, empty where it has none.
pub open spec fn head_text(data: Seq<char>) -> Seq<char> {
    match head_bytes(encode_utf8(data)) {
        Some(head) => decode_utf8(head),
        None => Seq::empty(),
    }
}

/// The body of a document: the whole of it where it has no head.
pub open spec fn body_text(data: Seq<char>) -> Seq<char> {
    match body_bytes(encode_utf8(data)) {
        Some(body) => decode_utf8(body),
        None => data,
    }
}

/// The context of a document: the title and the description that its head
/// gives, with a space between them.
pub open spec fn context_text(data: Seq<char>) -> Seq<char> {
    found_or_empty(first_group(TITLE_PATTERN@, head_text(data))) + " "@ + found_or_empty(
        first_group(DESCRIPTION_PATTERN@, head_text(data)),
    )
}

/// The context that a head gives: its title, a space, its description.
pub fn context_of(head: &Head) -> (context: String)
    ensures
        context@ == head.title@ + " "@ + head.desc@,
{
    let mut context = head.title.clone();
    context.append(" ");
    context.append(head.desc.as_str());
    context
}

/// What is embedded for a chunk: the context, a line break, the chunk.
pub fn payload(context: &str, chunk: &str) -> (text: String)
    ensures
        text@ == context@ + "\n"@ + chunk@,
{
    let mut text = String::from_str(context);
    text.append("\n");
    text.append(chunk);
    text
}

/// Takes a document apart: the context from its head, the chunks from its
/// body.
pub fn prepare(data: String) -> (r: Result<Prepared, SplitError>)
    ensures
        match r {
            Ok(prepared) => prepared.context@ == context_text(data@) && SplitOutcome::Chunks(
                texts(prepared.chunks@),
            ) == split_outcome(body_text(data@), parsed_blocks(body_text(data@))),
            Err(error) => outcome_of(Err::<Vec<String>, SplitError>(error)) == split_outcome(
                body_text(data@),
                parsed_blocks(body_text(data@)),
            ),
        },
{
    let head = match extract_head(data.as_str()) {
        Some(head) => head,
        None => String::new(),
    };
    let context = context_of(&extract_head_values(head.as_str()));
    let body = remove_head(data);
    match split_by_headings(body.as_str()) {
        Ok(chunks) => Ok(Prepared { context, chunks }),
        Err(error) => Err(error),
    }
}

} // verus!
