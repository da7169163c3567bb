//! Embeddings and the collections that hold them.
//!
//! A collection is an ordered set of embeddings of one dimension under one
//! distance metric. Vector components and scores are single-precision
//! numbers carried by their bit patterns (see `score`); the arithmetic that
//! turns two vectors into a score is the caller's, the ranking of the scores
//! is done here.

use crate::distance::Distance;
use crate::topk::{
    is_entry_of, lemma_top_k, lemma_top_k_orders_scores, no_worse, select_top_k, top_k, ScoreIndex,
};
use vstd::prelude::*;

verus! {

/// A vector with its identifier and an opaque payload: the unit of
/// retrieval.
#[derive(Debug)]
pub struct Embedding {
    /// Unique within the collection that holds the embedding.
    pub id: String,
    /// The components, each by its bit pattern.
    pub vector: Vec<u32>,
    /// Returned verbatim on retrieval.
    pub blob: String,
}

/// What an embedding holds.
pub struct EmbeddingView {
    pub id: Seq<char>,
    pub vector: Seq<u32>,
    pub blob: Seq<char>,
}

impl View for Embedding {
    type V = EmbeddingView;

    open spec fn view(&self) -> EmbeddingView {
        EmbeddingView { id: self.id@, vector: self.vector@, blob: self.blob@ }
    }
}

impl Embedding {
    pub fn new(id: String, vector: Vec<u32>, blob: String) -> (e: Self)
        ensures
            e@ == (EmbeddingView { id: id@, vector: vector@, blob: blob@ }),
    {
        Self { id, vector, blob }
    }
}

impl Clone for Embedding {
    fn clone(&self) -> (e: Self)
        ensures
            e@ == self@,
    {
        Embedding { id: self.id.clone(), vector: self.vector.clone(), blob: self.blob.clone() }
    }
}

/// What a query gives back of an embedding: its identifier and its payload,
/// not its vector.
#[derive(Debug)]
pub struct Retrieved {
    pub id: String,
    pub blob: String,
}

/// What is given back of an embedding.
pub struct RetrievedView {
    pub id: Seq<char>,
    pub blob: Seq<char>,
}

impl View for Retrieved {
    type V = RetrievedView;

    open spec fn view(&self) -> RetrievedView {
        RetrievedView { id: self.id@, blob: self.blob@ }
    }
}

impl Clone for Retrieved {
    fn clone(&self) -> (r: Self)
        ensures
            r@ == self@,
    {
        Retrieved { id: self.id.clone(), blob: self.blob.clone() }
    }
}

impl EmbeddingView {
    /// What a query gives back of this embedding.
    pub open spec fn retrieved(self) -> RetrievedView {
        RetrievedView { id: self.id, blob: self.blob }
    }
}

/// One result of a query: an embedding, by its identifier and payload, and
/// the score it was ranked by.
#[derive(Debug)]
pub struct SimilarityResult {
    /// The bits of the score.
    pub score: u32,
    pub embedding: Retrieved,
}

/// What a query result holds.
pub struct SimilarityResultView {
    pub score: u32,
    pub embedding: RetrievedView,
}

impl View for SimilarityResult {
    type V = SimilarityResultView;

    open spec fn view(&self) -> SimilarityResultView {
        SimilarityResultView { score: self.score, embedding: self.embedding@ }
    }
}

impl Clone for SimilarityResult {
    fn clone(&self) -> (r: Self)
        ensures
            r@ == self@,
    {
        SimilarityResult { score: self.score, embedding: self.embedding.clone() }
    }
}

/// A fixed-dimension, single-metric set of embeddings, in insertion order.
#[derive(Debug)]
pub struct Collection {
    /// Dimension of the vectors in the collection.
    pub dimension: usize,
    /// Distance metric used for querying.
    pub distance: Distance,
    /// Embeddings in the collection.
    pub embeddings: Vec<Embedding>,
}

/// What a collection holds.
pub struct CollectionView {
    pub dimension: nat,
    pub distance: Distance,
    pub embeddings: Seq<EmbeddingView>,
}

impl CollectionView {
    /// Whether some embedding of the collection has this id.
    pub open spec fn has_id(self, id: Seq<char>) -> bool {
        exists|i: int| 0 <= i < self.embeddings.len() && (#[trigger] self.embeddings[i]).id == id
    }

    /// The invariant of a collection: a positive dimension, which is the
    /// length of every vector, and no id twice.
    pub open spec fn wf(self) -> bool {
        &&& self.dimension > 0
        &&& forall|i: int|
            0 <= i < self.embeddings.len() ==> (#[trigger] self.embeddings[i]).vector.len()
                == self.dimension
        &&& forall|i: int, j: int|
            0 <= i < j < self.embeddings.len() ==> (#[trigger] self.embeddings[i]).id != (
            #[trigger] self.embeddings[j]).id
    }

    /// The collection with one more embedding at its end.
    pub open spec fn with(self, e: EmbeddingView) -> CollectionView {
        CollectionView { embeddings: self.embeddings.push(e), ..self }
    }

    /// The answer to a query whose scores are `scores`, position by
    /// position: the best `k` positions under the collection's metric, best
    /// first, each with its score and with the identifier and the payload
    /// of its embedding.
    pub open spec fn similar(self, scores: Seq<u32>, k: int) -> Seq<SimilarityResultView> {
        top_k(scores, k, self.distance.spec_lower_is_better()).map_values(
            |e: ScoreIndex|
                SimilarityResultView {
                    score: e.score,
                    embedding: self.embeddings[e.index as int].retrieved(),
                },
        )
    }
}

impl View for Collection {
    type V = CollectionView;

    open spec fn view(&self) -> CollectionView {
        CollectionView {
            dimension: self.dimension as nat,
            distance: self.distance,
            embeddings: self.embeddings@.map_values(|e: Embedding| e@),
        }
    }
}

impl Clone for Collection {
    fn clone(&self) -> (c: Self)
        ensures
            c@ == self@,
    {
        let mut embeddings: Vec<Embedding> = Vec::new();
        let mut i: usize = 0;
        while i < self.embeddings.len()
            invariant
                i <= self.embeddings.len(),
                embeddings.len() == i,
                forall|j: int| 0 <= j < i ==> (#[trigger] embeddings@[j])@ == self.embeddings@[j]@,
            decreases self.embeddings.len() - i,
        {
            embeddings.push(self.embeddings[i].clone());
            i += 1;
        }
        let c = Collection { dimension: self.dimension, distance: self.distance, embeddings };
        assert(c@.embeddings =~= self@.embeddings);
        c
    }
}

impl Collection {
    /// An empty collection of the given dimension and metric.
    pub fn new(dimension: usize, distance: Distance) -> (c: Self)
        ensures
            c@ == (CollectionView { dimension: dimension as nat, distance, embeddings: Seq::empty() }),
    {
        let c = Collection { dimension, distance, embeddings: Vec::new() };
        assert(c@.embeddings =~= Seq::empty());
        c
    }

    /// The number of embeddings.
    pub fn len(&self) -> (n: usize)
        ensures
            n == self@.embeddings.len(),
    {
        self.embeddings.len()
    }

    /// The position of the first embedding with this id, if there is one.
    pub fn position_of(&self, id: &String) -> (r: Option<usize>)
        ensures
            match r {
                Some(i) => i < self@.embeddings.len() && self@.embeddings[i as int].id == id@
                    && forall|j: int| 0 <= j < i ==> (#[trigger] self@.embeddings[j]).id != id@,
                None => !self@.has_id(id@),
            },
    {
        let mut i: usize = 0;
        while i < self.embeddings.len()
            invariant
                i <= self.embeddings.len(),
                forall|j: int| 0 <= j < i ==> (#[trigger] self@.embeddings[j]).id != id@,
            decreases self.embeddings.len() - i,
        {
            if self.embeddings[i].id == *id {
                return Some(i);
            }
            i += 1;
        }
        None
    }

    /// Answers a query from the scores of the stored embeddings.
    ///
    /// `scores[i]` is the score of the query vector against embedding `i`
    /// under the collection's metric. The result holds the best
    /// `min(k, len)` embeddings, best first, each by its identifier and
    /// payload and with its score. Lower is
    /// better for a Euclidean distance, higher for a cosine or a dot
    /// product; a score that is not a number ranks last; of two equally
    /// ranked embeddings the one inserted first comes first.
    pub fn get_similarity(&self, scores: &Vec<u32>, k: usize) -> (r: Vec<SimilarityResult>)
        requires
            scores.len() == self.embeddings.len(),
        ensures
            r@.map_values(|x: SimilarityResult| x@) == self@.similar(scores@, k as int),
            r.len() == if k <= self@.embeddings.len() {
                k as int
            } else {
                self@.embeddings.len() as int
            },
    {
        let selected = select_top_k(scores, k, self.distance.lower_is_better());
        let mut results: Vec<SimilarityResult> = Vec::new();
        let mut i: usize = 0;
        while i < selected.len()
            invariant
                i <= selected.len(),
                results.len() == i,
                scores.len() == self.embeddings.len(),
                forall|j: int|
                    0 <= j < selected.len() ==> (#[trigger] selected@[j]).index < scores.len(),
                forall|j: int|
                    0 <= j < i ==> (#[trigger] results@[j])@ == (SimilarityResultView {
                        score: selected@[j].score,
                        embedding: self@.embeddings[selected@[j].index as int].retrieved(),
                    }),
            decreases selected.len() - i,
        {
            let entry = selected[i];
            let found = &self.embeddings[entry.index];
            results.push(
                SimilarityResult {
                    score: entry.score,
                    embedding: Retrieved { id: found.id.clone(), blob: found.blob.clone() },
                },
            );
            i += 1;
        }
        results
    }
}

/// The answer to a query holds `min(k, len)` results; each is a stored
/// embedding with the score of its position; and of two results the earlier
/// has a score that is no worse under the collection's metric.
pub proof fn lemma_similar(c: CollectionView, scores: Seq<u32>, k: int)
    requires
        0 <= k,
        scores.len() == c.embeddings.len(),
        scores.len() <= usize::MAX,
    ensures
        c.similar(scores, k).len() == if k <= c.embeddings.len() {
            k
        } else {
            c.embeddings.len() as int
        },
        forall|i: int|
            0 <= i < c.similar(scores, k).len() ==> exists|p: int|
                0 <= p < c.embeddings.len() && (#[trigger] c.similar(scores, k)[i]) == (
                SimilarityResultView { score: scores[p], embedding: c.embeddings[p].retrieved() }),
        forall|i: int, j: int|
            0 <= i < j < c.similar(scores, k).len() ==> no_worse(
                (#[trigger] c.similar(scores, k)[i]).score,
                (#[trigger] c.similar(scores, k)[j]).score,
                c.distance.spec_lower_is_better(),
            ),
{
    let lower = c.distance.spec_lower_is_better();
    let answer = c.similar(scores, k);
    lemma_top_k(scores, k, lower);
    assert forall|i: int, j: int| 0 <= i < j < answer.len() implies no_worse(
        (#[trigger] answer[i]).score,
        (#[trigger] answer[j]).score,
        lower,
    ) by {
        lemma_top_k_orders_scores(scores, k, lower, i, j);
    }
}

} // verus!
