//! An in-memory vector similarity search engine, and the text handling of
//! the service that feeds it.
//!
//! The engine is a registry (`registry`) of named collections
//! (`collection`): each holds embeddings of one dimension under one
//! distance metric (`distance`) and answers a query with the best `k` of
//! them, selected by a bounded heap (`topk`). Vector components and scores
//! are single-precision numbers carried by their bit patterns (`score`):
//! the library stores them and ranks them, the arithmetic on them is the
//! caller's.
//!
//! Around it stand the parts of the ingestion that compute: the front
//! matter of a document (`encoder`), the chunks of its body (`headings`),
//! what is embedded of it (`document`), the choice of the files of a
//! repository (`github`), lists kept as one text (`lists`), and the requests
//! and answers of the service (`api`).

pub mod api;
pub mod collection;
pub mod distance;
pub mod document;
pub mod encoder;
pub mod error;
pub mod github;
pub mod headings;
pub mod lists;
pub mod registry;
pub mod score;
pub mod text;
pub mod topk;
