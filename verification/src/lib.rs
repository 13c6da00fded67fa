//! A semantic document index.
//!
//! Documents are cut into overlapping chunks of text. Each chunk is stored
//! with an embedding vector that an outside provider computes for it. A query
//! is answered with the stored chunks whose vectors lie closest to the vector
//! of the query, joined into one block of context.
//!
//! The library decides; it reads no file, asks no provider and writes to no
//! store. Whoever uses it does that, and hands over what came of it:
//!
//! * `chunker` cuts a text into windows;
//! * `document` picks the way in which a document is read;
//! * `embedding` holds vectors and reads the provider's replies;
//! * `ingest` leads a run from a list of documents to chunks in the store;
//! * `score` and `ranker` order scored candidates and select the best;
//! * `search` builds the context that answers a query;
//! * `text` holds the helpers on characters that the others share.
//!
//! Numbers with a fraction are kept as their 64 bits throughout: the library
//! compares them and carries them, and does no arithmetic on them.

pub mod chunker;
pub mod document;
pub mod embedding;
pub mod ingest;
pub mod ranker;
pub mod score;
pub mod search;
pub mod text;
