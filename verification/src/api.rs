//! The requests and answers of the service, and what is computed between
//! them: a source from the request that creates it, the answer to a search
//! from the results of a query, the status that goes with an error.

use crate::collection::SimilarityResult;
use crate::github::Source;
use crate::text::texts;
use vstd::prelude::*;
use vstd::string::StringExecFns;

verus! {

/// The request that creates a source.
#[derive(Debug)]
pub struct CreateSourceReq {
    pub collection_id: i64,
    pub owner: String,
    pub repo: String,
    pub branch: String,
    pub allowed_ext: Vec<String>,
    pub allowed_dirs: Vec<String>,
    pub ignored_dirs: Vec<String>,
}

/// The answer to the request that creates a source.
#[derive(Clone, Copy, Debug, PartialEq, Eq, Structural)]
pub struct CreateSourceResp {
    pub id: i64,
}

/// The request for a search.
#[derive(Debug)]
pub struct SearchQuery {
    pub query: String,
}

/// One entry of the answer to a search.
#[derive(Debug)]
pub struct SearchResp {
    /// The bits of the score.
    pub score: u32,
    pub path: String,
    pub text: String,
}

/// A failure of the service, with the message of its cause.
#[derive(Debug)]
pub enum ServerError {
    DbError(String),
    ValidationError(String),
    NoContent(String),
    GitHubAPIError(String),
    OpenAIAPIError(String),
}

/// The status of a request that failed inside the service.
pub const INTERNAL_SERVER_ERROR: u16 = 500;

/// The status of a request that was not valid.
pub const BAD_REQUEST: u16 = 400;

/// The status of a request that found nothing.
pub const NO_CONTENT: u16 = 204;

/// `values` without the repetitions: each text where it first occurs.
pub open spec fn without_repeats(values: Seq<Seq<char>>) -> Seq<Seq<char>>
    decreases values.len(),
{
    if values.len() == 0 {
        Seq::empty()
    } else {
        let earlier = without_repeats(values.drop_last());
        if earlier.contains(values.last()) {
            earlier
        } else {
            earlier.push(values.last())
        }
    }
}

/// `without_repeats` holds no text twice, and holds exactly the texts of
/// `values`.
pub proof fn lemma_without_repeats(values: Seq<Seq<char>>)
    ensures
        without_repeats(values).no_duplicates(),
        forall|text: Seq<char>| without_repeats(values).contains(text) <==> values.contains(text),
    decreases values.len(),
{
    if values.len() > 0 {
        let shorter = values.drop_last();
        let earlier = without_repeats(shorter);
        lemma_without_repeats(shorter);
        assert forall|text: Seq<char>| without_repeats(values).contains(text) <==> values.contains(
            text,
        ) by {
            if values.contains(text) {
                let i = choose|i: int| 0 <= i < values.len() && values[i] == text;
                if i < shorter.len() {
                    assert(shorter[i] == text);
                    assert(shorter.contains(text));
                    let j = choose|j: int| 0 <= j < earlier.len() && earlier[j] == text;
                    assert(without_repeats(values)[j] == text);
                } else if !earlier.contains(text) {
                    assert(without_repeats(values)[earlier.len() as int] == text);
                }
            }
            if without_repeats(values).contains(text) {
                let j = choose|j: int|
                    0 <= j < without_repeats(values).len() && without_repeats(values)[j] == text;
                if j < earlier.len() {
                    assert(shorter.contains(text));
                }
            }
        }
    }
}

/// Whether `values` holds `wanted`.
fn holds(values: &Vec<String>, wanted: &String) -> (r: bool)
    ensures
        r == texts(values@).contains(wanted@),
{
    let mut i: usize = 0;
    while i < values.len()
        invariant
            i <= values.len(),
            forall|j: int| 0 <= j < i ==> (#[trigger] texts(values@)[j]) != wanted@,
        decreases values.len() - i,
    {
        if values[i] == *wanted {
            assert(texts(values@)[i as int] == wanted@);
            return true;
        }
        i += 1;
    }
    false
}

/// Drops the repetitions of `values`.
pub fn distinct(values: Vec<String>) -> (r: Vec<String>)
    ensures
        texts(r@) == without_repeats(texts(values@)),
{
    let mut kept: Vec<String> = Vec::new();
    let mut i: usize = 0;
    while i < values.len()
        invariant
            i <= values.len(),
            texts(kept@) == without_repeats(texts(values@).take(i as int)),
        decreases values.len() - i,
    {
        proof {
            let all = texts(values@);
            assert(all.take(i + 1).drop_last() =~= all.take(i as int));
        }
        if !holds(&kept, &values[i]) {
            kept.push(values[i].clone());
        }
        i += 1;
    }
    proof {
        assert(texts(values@).take(values@.len() as int) =~= texts(values@));
    }
    kept
}

impl CreateSourceReq {
    /// The source that the request describes, not yet stored: its id is 0,
    /// and each of its three lists holds the texts of the request's list
    /// once.
    pub fn into_source(self) -> (source: Source)
        ensures
            source.id == 0,
            source.collection_id == self.collection_id,
            source.owner@ == self.owner@,
            source.repo@ == self.repo@,
            source.branch@ == self.branch@,
            texts(source.allowed_ext@) == without_repeats(texts(self.allowed_ext@)),
            texts(source.allowed_dirs@) == without_repeats(texts(self.allowed_dirs@)),
            texts(source.ignored_dirs@) == without_repeats(texts(self.ignored_dirs@)),
    {
        Source {
            id: 0,
            collection_id: self.collection_id,
            owner: self.owner,
            repo: self.repo,
            branch: self.branch,
            allowed_ext: distinct(self.allowed_ext),
            allowed_dirs: distinct(self.allowed_dirs),
            ignored_dirs: distinct(self.ignored_dirs),
        }
    }
}

impl SearchResp {
    /// The answer for the results of a query, in their order: the id of
    /// each embedding as the path, its payload as the text.
    pub fn from_results(results: Vec<SimilarityResult>) -> (r: Vec<SearchResp>)
        ensures
            r.len() == results.len(),
            forall|i: int|
                0 <= i < r.len() ==> (#[trigger] r@[i]).score == results@[i].score && r@[i].path@
                    == results@[i].embedding.id@ && r@[i].text@ == results@[i].embedding.blob@,
    {
        let mut answer: Vec<SearchResp> = Vec::new();
        let mut i: usize = 0;
        while i < results.len()
            invariant
                i <= results.len(),
                answer.len() == i,
                forall|j: int|
                    0 <= j < i ==> (#[trigger] answer@[j]).score == results@[j].score
                        && answer@[j].path@ == results@[j].embedding.id@ && answer@[j].text@
                        == results@[j].embedding.blob@,
            decreases results.len() - i,
        {
            answer.push(
                SearchResp {
                    score: results[i].score,
                    path: results[i].embedding.id.clone(),
                    text: results[i].embedding.blob.clone(),
                },
            );
            i += 1;
        }
        answer
    }
}

impl ServerError {
    /// The status that answers a request which failed this way.
    pub open spec fn spec_status_code(&self) -> u16 {
        match self {
            ServerError::ValidationError(_) => BAD_REQUEST,
            ServerError::NoContent(_) => NO_CONTENT,
            _ => INTERNAL_SERVER_ERROR,
        }
    }

    /// The message that the caller is shown: that of the cause for a
    /// request that was not valid or found nothing, and no detail for a
    /// failure inside the service.
    pub open spec fn spec_public_message(&self) -> Seq<char> {
        match self {
            ServerError::ValidationError(message) => message@,
            ServerError::NoContent(message) => message@,
            _ => "Internal error"@,
        }
    }

    /// Computes `spec_status_code`.
    pub fn status_code(&self) -> (code: u16)
        ensures
            code == self.spec_status_code(),
    {
        match self {
            ServerError::DbError(_) => INTERNAL_SERVER_ERROR,
            ServerError::ValidationError(_) => BAD_REQUEST,
            ServerError::NoContent(_) => NO_CONTENT,
            ServerError::GitHubAPIError(_) => INTERNAL_SERVER_ERROR,
            ServerError::OpenAIAPIError(_) => INTERNAL_SERVER_ERROR,
        }
    }

    /// Computes `spec_public_message`.
    pub fn public_message(&self) -> (message: String)
        ensures
            message@ == self.spec_public_message(),
    {
        match self {
            ServerError::DbError(_) => String::from_str("Internal error"),
            ServerError::ValidationError(message) => message.clone(),
            ServerError::NoContent(message) => message.clone(),
            ServerError::GitHubAPIError(_) => String::from_str("Internal error"),
            ServerError::OpenAIAPIError(_) => String::from_str("Internal error"),
        }
    }
}

} // verus!
