//! The configuration this subsystem consumes: the file storage root, the
//! worker pool's concurrency limit, the embedding provider's endpoint, key,
//! model and price, and the chat-completion endpoint. Paths are plain
//! strings; prices are integers in the currency's smallest accounted unit
//! per thousand tokens, so no floating point enters the library.

use vstd::prelude::*;

use crate::jsonval::Json;
use crate::query::StopWords;
use crate::text::split_chars;

verus! {

/// Web front-end paths and the prompt prefix.
pub struct Backend {
    pub template_directory: String,
    pub resources: String,
    pub stop_words: String,
    pub system_prompt: String,
}

/// The worker pool's configuration.
pub struct FileProcessor {
    /// Most file-processing tasks running at once.
    pub max_active_process: u32,
}

/// Chat-completion prices per thousand tokens, in the smallest accounted
/// unit.
pub struct Pricing {
    pub input: u64,
    pub output: u64,
}

/// The embedding provider: endpoint, model, key, and price per thousand
/// tokens in the smallest accounted unit.
pub struct Embedding {
    pub api: String,
    pub model: String,
    pub key: String,
    pub pricing: u64,
}

/// The chat-completion provider and the extra body members merged into each
/// request.
pub struct ChatCompletion {
    pub api: String,
    pub key: String,
    pub body_param: Json,
    pub pricing: Pricing,
}

/// Shared configuration for the pipeline's programs.
pub struct Config {
    pub file_store: String,
    pub backend: Backend,
    pub file_processor: FileProcessor,
    pub embedding: Embedding,
    pub chat_completion: ChatCompletion,
}

impl Config {
    /// The stop words from the stop-words file's contents, one word per
    /// line. Reading the file at `backend.stop_words` is the caller's work.
    pub fn get_stop_words(&self, contents: &str) -> (r: StopWords)
        ensures
            r.words_view() == split_chars(contents@, '\n'),
    {
        StopWords::from_text(contents)
    }
}

} // verus!
