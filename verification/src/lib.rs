//! Document-ingestion library: turns an uploaded file (plain text or PDF)
//! into chunked, embedded, queryable content.
//!
//! The pipeline's pieces, leaves first: `text` and `numbers` hold character
//! and decimal utilities, `hashing` the content hash, `layout` and `ocr` the
//! reconstruction of reading-order text from positioned OCR tokens,
//! `extract` the per-document page state, `chunker` the size-bounded
//! splitting, `jsonval` and `embedding` the provider request, response check
//! and pricing, `scheduler` the concurrency-bounded counters, and
//! `processor` the per-file decisions. Around the pipeline, `account`,
//! `query` and `upload` hold the account, retrieval and upload rules, and
//! `config` the configuration they all read.

pub mod account;
pub mod chunker;
pub mod config;
pub mod embedding;
pub mod extract;
pub mod hashing;
pub mod jsonval;
pub mod layout;
pub mod numbers;
pub mod ocr;
pub mod processor;
pub mod query;
pub mod scheduler;
pub mod text;
pub mod upload;
