//! Documents, their versions and their chunks.

use crate::error::Error;
use crate::text::{clone_optional, clone_strings, texts};
use vstd::prelude::*;
use vstd::string::StringExecFns;

verus! {

/// A piece of a document, as the splitter cut it.
///
/// `offset` counts the chunks of one version from zero. `score` is set on
/// chunks that a search returned: an integer that orders the chunks as the
/// similarity that the index reported does, larger being closer, with zero
/// for a similarity of zero. The embedding of a chunk is not kept here: the
/// caller holds it, and finds it by the offset of the chunk.
#[derive(Debug)]
pub struct Chunk {
    pub text: String,
    pub hash: String,
    pub offset: usize,
    pub score: Option<i64>,
}

/// What a chunk holds.
pub struct ChunkView {
    pub text: Seq<char>,
    pub hash: Seq<char>,
    pub offset: usize,
    pub score: Option<i64>,
}

impl View for Chunk {
    type V = ChunkView;

    open spec fn view(&self) -> ChunkView {
        ChunkView { text: self.text@, hash: self.hash@, offset: self.offset, score: self.score }
    }
}

/// What each of the chunks holds.
pub open spec fn chunk_views(chunks: Seq<Chunk>) -> Seq<ChunkView> {
    chunks.map_values(|c: Chunk| c@)
}

/// The offsets of the chunks, in their order.
pub open spec fn chunk_offsets(chunks: Seq<ChunkView>) -> Seq<usize> {
    chunks.map_values(|c: ChunkView| c.offset)
}

impl Clone for Chunk {
    fn clone(&self) -> (copy: Self)
        ensures
            copy == *self,
    {
        Chunk {
            text: self.text.clone(),
            hash: self.hash.clone(),
            offset: self.offset,
            score: self.score,
        }
    }
}

/// A document as the metadata store holds it, and as a search returns it.
///
/// `chunk_count` is the number of chunks of the version, all of which have a
/// point in the vector index. `chunks` holds the chunks at hand: all of them
/// after an upsert, the hits after a search. `text` is filled in on request.
#[derive(Debug)]
pub struct Document {
    pub data_source_id: String,
    pub created: u64,
    pub document_id: String,
    pub timestamp: u64,
    pub tags: Vec<String>,
    pub source_url: Option<String>,
    pub hash: String,
    pub text_size: u64,
    pub chunk_count: usize,
    pub chunks: Vec<Chunk>,
    pub text: Option<String>,
    pub token_count: Option<usize>,
}

/// A copy of a list of chunks.
pub fn clone_chunks(chunks: &Vec<Chunk>) -> (copy: Vec<Chunk>)
    ensures
        copy@ == chunks@,
{
    let mut copy: Vec<Chunk> = Vec::new();
    let mut i: usize = 0;
    while i < chunks.len()
        invariant
            i <= chunks@.len(),
            copy@ == chunks@.subrange(0, i as int),
        decreases chunks@.len() - i,
    {
        copy.push(chunks[i].clone());
        assert(copy@ =~= chunks@.subrange(0, i + 1));
        i = i + 1;
    }
    assert(chunks@.subrange(0, chunks@.len() as int) =~= chunks@);
    copy
}

impl Clone for Document {
    fn clone(&self) -> (copy: Self)
        ensures
            same_row(copy, *self),
            copy.tags@ == self.tags@,
            copy.chunk_count == self.chunk_count,
            copy.chunks@ == self.chunks@,
            copy.token_count == self.token_count,
    {
        Document {
            data_source_id: self.data_source_id.clone(),
            created: self.created,
            document_id: self.document_id.clone(),
            timestamp: self.timestamp,
            tags: clone_strings(&self.tags),
            source_url: clone_optional(&self.source_url),
            hash: self.hash.clone(),
            text_size: self.text_size,
            chunk_count: self.chunk_count,
            chunks: clone_chunks(&self.chunks),
            text: clone_optional(&self.text),
            token_count: self.token_count,
        }
    }
}

impl Document {
    /// A document without chunks, created at `created`.
    pub fn new(
        data_source_id: &str,
        document_id: &str,
        timestamp: u64,
        tags: &Vec<String>,
        source_url: &Option<String>,
        hash: &str,
        text_size: u64,
        created: u64,
    ) -> (document: Result<Self, Error>)
        ensures
            document matches Ok(d) && d.data_source_id@ == data_source_id@ && d.created == created
                && d.document_id@ == document_id@ && d.timestamp == timestamp && d.tags@ == tags@
                && d.source_url == *source_url && d.hash@ == hash@ && d.text_size == text_size
                && d.chunk_count == 0 && d.chunks@.len() == 0 && d.text is None
                && d.token_count is None,
    {
        Ok(
            Document {
                data_source_id: String::from_str(data_source_id),
                created,
                document_id: String::from_str(document_id),
                timestamp,
                tags: clone_strings(tags),
                source_url: clone_optional(source_url),
                hash: String::from_str(hash),
                text_size,
                chunk_count: 0,
                chunks: Vec::new(),
                text: None,
                token_count: None,
            },
        )
    }

    /// The offsets of the chunks at hand, in their order.
    pub open spec fn offsets_of(chunks: Seq<Chunk>) -> Seq<usize> {
        chunk_offsets(chunk_views(chunks))
    }
}

/// The two documents are the same row: they differ in their chunks and in
/// their count of tokens at most.
pub open spec fn same_row(a: Document, b: Document) -> bool {
    &&& a.data_source_id@ == b.data_source_id@
    &&& a.created == b.created
    &&& a.document_id@ == b.document_id@
    &&& a.timestamp == b.timestamp
    &&& texts(a.tags@) == texts(b.tags@)
    &&& a.source_url == b.source_url
    &&& a.hash@ == b.hash@
    &&& a.text_size == b.text_size
    &&& a.text == b.text
}

/// A version of a document: when it was stored, and its fingerprint.
#[derive(Debug)]
pub struct DocumentVersion {
    pub created: u64,
    pub hash: String,
}

impl Clone for DocumentVersion {
    fn clone(&self) -> (copy: Self)
        ensures
            copy == *self,
    {
        DocumentVersion { created: self.created, hash: self.hash.clone() }
    }
}

} // verus!
