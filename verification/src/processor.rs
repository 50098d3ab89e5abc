//! The file processor's per-job decisions: dispatch on the declared media
//! type, pass a plain-text file's content through unchanged, request
//! embeddings only when there are chunks, and pair every chunk with its
//! vector against the owning file. Claiming a file, reading it, and
//! committing the transaction are the surrounding program's work.

use vstd::prelude::*;
use vstd::string::StringExecFns;

use crate::jsonval::Json;

verus! {

/// One claimed, unprocessed file, as storage hands it out. File and account
/// identities are 128-bit words.
pub struct Datasource {
    pub id: u128,
    pub user_id: u128,
    pub path: String,
    pub media_type: String,
}

/// The media types the pipeline accepts.
#[derive(Debug, Clone, Copy, PartialEq, Eq, Structural)]
pub enum MediaType {
    PlainText,
    Pdf,
}

/// A file whose declared media type the pipeline never accepts reached the
/// processor: a fatal configuration error, since the upload collaborator
/// should have rejected the file.
#[derive(Debug, PartialEq, Eq, Structural)]
pub struct UnsupportedMediaType;

/// Dispatch on a file's declared media type: exactly `text/plain` and
/// `application/pdf` are accepted.
pub fn parse_media_type(s: &str) -> (r: Result<MediaType, UnsupportedMediaType>)
    ensures
        r == Ok::<MediaType, UnsupportedMediaType>(MediaType::PlainText) <==> s@ == "text/plain"@,
        r == Ok::<MediaType, UnsupportedMediaType>(MediaType::Pdf) <==> s@ == "application/pdf"@,
        r is Err <==> (s@ != "text/plain"@ && s@ != "application/pdf"@),
{
    proof {
        reveal_strlit("text/plain");
        reveal_strlit("application/pdf");
        assert("text/plain"@.len() == 10);
        assert("application/pdf"@.len() == 15);
    }
    let v = String::from_str(s);
    if v == String::from_str("text/plain") {
        Ok(MediaType::PlainText)
    } else if v == String::from_str("application/pdf") {
        Ok(MediaType::Pdf)
    } else {
        Err(UnsupportedMediaType)
    }
}

/// The text a plain-text file yields: exactly the file's raw content,
/// unchanged.
pub fn extract_plain_text(content: String) -> (r: String)
    ensures
        r@ == content@,
{
    content
}

/// Whether embeddings are requested for a document's chunks.
#[derive(Debug, Clone, Copy, PartialEq, Eq, Structural)]
pub enum EmbeddingPlan {
    /// The document has no chunks: no request is sent and nothing is
    /// charged; the file is still marked processed, with zero rows.
    SkipEmbedding,
    /// The document's chunks go to the provider in one batch.
    RequestEmbeddings,
}

/// No embedding request is made exactly when a document has no chunks.
pub fn plan_embedding(chunk_count: usize) -> (r: EmbeddingPlan)
    ensures
        r == EmbeddingPlan::SkipEmbedding <==> chunk_count == 0,
        r == EmbeddingPlan::RequestEmbeddings <==> chunk_count > 0,
{
    if chunk_count == 0 {
        EmbeddingPlan::SkipEmbedding
    } else {
        EmbeddingPlan::RequestEmbeddings
    }
}

/// One row of the bulk insert: the owning file, the chunk's text, and the
/// chunk's embedding vector.
pub struct EmbeddingRecord {
    pub file_id: u128,
    pub text: String,
    pub vector: Json,
}

/// Pair every chunk with its vector, in order, against the file's identity:
/// one record per chunk, nothing reordered, nothing dropped.
pub fn build_records(file_id: u128, chunks: Vec<String>, vectors: Vec<Json>) -> (r: Vec<
    EmbeddingRecord,
>)
    requires
        chunks@.len() == vectors@.len(),
    ensures
        r@.len() == chunks@.len(),
        forall|i: int|
            0 <= i < r@.len() ==> (#[trigger] r@[i]).file_id == file_id && r@[i].text == chunks@[i]
                && r@[i].vector == vectors@[i],
{
    let ghost cfull = chunks@;
    let ghost vfull = vectors@;
    let mut chunks = chunks;
    let mut vectors = vectors;
    let mut r: Vec<EmbeddingRecord> = Vec::new();
    proof {
        assert(chunks@ =~= cfull.skip(0));
        assert(vectors@ =~= vfull.skip(0));
    }
    while chunks.len() > 0
        invariant
            chunks@.len() == vectors@.len(),
            r@.len() + chunks@.len() == cfull.len(),
            cfull.len() == vfull.len(),
            chunks@ == cfull.skip(r@.len() as int),
            vectors@ == vfull.skip(r@.len() as int),
            forall|i: int|
                0 <= i < r@.len() ==> (#[trigger] r@[i]).file_id == file_id && r@[i].text
                    == cfull[i] && r@[i].vector == vfull[i],
        decreases chunks@.len(),
    {
        let ghost k = r@.len() as int;
        let text = chunks.remove(0);
        let vector = vectors.remove(0);
        proof {
            assert(text == cfull[k]);
            assert(vector == vfull[k]);
            assert(chunks@ =~= cfull.skip(k + 1));
            assert(vectors@ =~= vfull.skip(k + 1));
        }
        r.push(EmbeddingRecord { file_id, text, vector });
    }
    r
}

} // verus!
