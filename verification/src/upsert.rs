//! The write path: how a document becomes blobs, points and a row.
//!
//! An upsert archives the raw content first, replaces the points of the
//! document next, and commits the row of the metadata store last. A search
//! therefore never sees a new row with old points, and the text of every
//! committed row can be read back from the archive.

use crate::blob::{
    content_path, content_path_of, document_id_path, document_id_path_of, tags_path, tags_path_of,
    timestamp_path, timestamp_path_of, BlobPut, ContentType,
};
use crate::data_source::{fresh_id, is_random_uuid, DataSource, DataSourceView};
use crate::document::{same_row, Chunk, Document};
use crate::error::Error;
use crate::fingerprint::{
    chunk_hash, chunk_hash_of, document_hash, document_hash_of, document_id_hash,
    document_id_hash_of,
};
use crate::index::{Point, PointPayload, PointPayloadView};
use crate::tags::{has_system_tag, is_system_tag, merge_system_tags, merged_tags_of};
use crate::text::{clone_strings, decimal, decimal_of, texts};
use vstd::prelude::*;
use vstd::string::{StrSliceExecFns, StringExecFns};
use vstd::utf8::encode_utf8;

verus! {

/// How many chunks of one document are embedded at a time.
pub const MAX_EMBEDDINGS_IN_FLIGHT: usize = 24;

/// The steps of an upsert, in their order.
#[derive(Clone, Copy, Debug, PartialEq, Eq, Structural)]
pub enum UpsertStage {
    /// The raw content is written to the archive.
    Archive,
    /// The text is split into chunks.
    Split,
    /// The chunks are embedded.
    Embed,
    /// The points of the document's earlier version are deleted.
    DeletePoints,
    /// The points of the new version are inserted.
    InsertPoints,
    /// The row of the metadata store is written.
    Commit,
    /// Nothing is left to do.
    Done,
}

/// What a failed upsert leaves behind.
#[derive(Clone, Copy, Debug, PartialEq, Eq, Structural)]
pub enum UpsertFailure {
    /// Points and row are as they were.
    Unchanged,
    /// The old points are gone and the new ones are not there: the document
    /// cannot be found by a search until it is upserted again. Its row is
    /// as it was.
    NoPoints,
    /// The new points are there, and the row still describes the version
    /// before: reading the document returns the old text until it is
    /// upserted again.
    RowBehind,
}

impl UpsertStage {
    /// The place of the step in the order of steps.
    pub open spec fn rank_of(self) -> int {
        match self {
            UpsertStage::Archive => 0,
            UpsertStage::Split => 1,
            UpsertStage::Embed => 2,
            UpsertStage::DeletePoints => 3,
            UpsertStage::InsertPoints => 4,
            UpsertStage::Commit => 5,
            UpsertStage::Done => 6,
        }
    }

    /// The step that follows, for a document of `chunk_count` chunks. A
    /// document without chunks has no points to insert.
    pub open spec fn next_of(self, chunk_count: usize) -> UpsertStage {
        match self {
            UpsertStage::Archive => UpsertStage::Split,
            UpsertStage::Split => UpsertStage::Embed,
            UpsertStage::Embed => UpsertStage::DeletePoints,
            UpsertStage::DeletePoints => if chunk_count == 0 {
                UpsertStage::Commit
            } else {
                UpsertStage::InsertPoints
            },
            UpsertStage::InsertPoints => UpsertStage::Commit,
            UpsertStage::Commit => UpsertStage::Done,
            UpsertStage::Done => UpsertStage::Done,
        }
    }

    /// What is left behind if this step fails.
    pub open spec fn failure_of(self) -> Option<UpsertFailure> {
        match self {
            UpsertStage::Archive => Some(UpsertFailure::Unchanged),
            UpsertStage::Split => Some(UpsertFailure::Unchanged),
            UpsertStage::Embed => Some(UpsertFailure::Unchanged),
            UpsertStage::DeletePoints => Some(UpsertFailure::Unchanged),
            UpsertStage::InsertPoints => Some(UpsertFailure::NoPoints),
            UpsertStage::Commit => Some(UpsertFailure::RowBehind),
            UpsertStage::Done => None,
        }
    }

    /// The first step.
    pub fn first() -> (stage: UpsertStage)
        ensures
            stage == UpsertStage::Archive,
    {
        UpsertStage::Archive
    }

    /// The step that follows this one once it has succeeded.
    pub fn next(&self, chunk_count: usize) -> (stage: UpsertStage)
        ensures
            stage == self.next_of(chunk_count),
    {
        match self {
            UpsertStage::Archive => UpsertStage::Split,
            UpsertStage::Split => UpsertStage::Embed,
            UpsertStage::Embed => UpsertStage::DeletePoints,
            UpsertStage::DeletePoints => if chunk_count == 0 {
                UpsertStage::Commit
            } else {
                UpsertStage::InsertPoints
            },
            UpsertStage::InsertPoints => UpsertStage::Commit,
            UpsertStage::Commit => UpsertStage::Done,
            UpsertStage::Done => UpsertStage::Done,
        }
    }

    /// What is left behind if this step fails. The step after the last
    /// cannot fail.
    pub fn failure(&self) -> (left: Option<UpsertFailure>)
        ensures
            left == self.failure_of(),
    {
        match self {
            UpsertStage::Archive => Some(UpsertFailure::Unchanged),
            UpsertStage::Split => Some(UpsertFailure::Unchanged),
            UpsertStage::Embed => Some(UpsertFailure::Unchanged),
            UpsertStage::DeletePoints => Some(UpsertFailure::Unchanged),
            UpsertStage::InsertPoints => Some(UpsertFailure::NoPoints),
            UpsertStage::Commit => Some(UpsertFailure::RowBehind),
            UpsertStage::Done => None,
        }
    }
}

/// Every step but the last is followed by a later one: the archive is
/// written before any point changes, and the points change before the row.
pub proof fn lemma_stages_advance(stage: UpsertStage, chunk_count: usize)
    requires
        stage != UpsertStage::Done,
    ensures
        stage.rank_of() < stage.next_of(chunk_count).rank_of(),
        stage.next_of(chunk_count) == UpsertStage::InsertPoints ==> chunk_count > 0,
{
}

/// The list of strings as a JSON array of strings.
pub uninterp spec fn json_of_strings(strings: Seq<Seq<char>>) -> Seq<char>;

/// Calls `serde_json::to_string` on the list. The call succeeds: a list of
/// strings is written as an array of escaped strings, and each step fails
/// only where the writer does, which here is a vector of bytes. The text is
/// given its name, `json_of_strings`: it depends on the strings alone.
#[verifier::external_body]
fn strings_to_json(strings: &Vec<String>) -> (json: Option<String>)
    ensures
        json is Some,
        json matches Some(text) ==> text@ == json_of_strings(texts(strings@)),
{
    match serde_json::to_string(strings) {
        Ok(text) => Some(text),
        Err(_) => None,
    }
}

/// The tags of the new version of a document.
pub open spec fn version_tags_of(
    supplied: Seq<Seq<char>>,
    current: Seq<Seq<char>>,
    preserve_system_tags: bool,
    prefix: Seq<char>,
) -> Seq<Seq<char>> {
    if preserve_system_tags {
        merged_tags_of(supplied, current, prefix)
    } else {
        supplied
    }
}

/// One of the supplied tags is a system tag.
pub open spec fn supplies_system_tag(supplied: Seq<Seq<char>>, prefix: Seq<char>) -> bool {
    exists|i: int| 0 <= i < supplied.len() && is_system_tag(#[trigger] supplied[i], prefix)
}

/// The payload of the point of chunk `chunk` of `document`.
pub open spec fn payload_of(
    data_source_id: Seq<char>,
    internal_id: Seq<char>,
    document: Document,
    chunk: Chunk,
) -> PointPayloadView {
    PointPayloadView {
        tags: texts(document.tags@),
        timestamp: document.timestamp as i64,
        chunk_offset: chunk.offset as i64,
        chunk_hash: chunk.hash@,
        data_source_id,
        data_source_internal_id: internal_id,
        document_id: document.document_id@,
        document_id_hash: document_id_hash_of(document.document_id@),
        text: chunk.text@,
    }
}

/// The number of bytes of a text.
pub open spec fn byte_len_of(text: Seq<char>) -> u64 {
    (encode_utf8(text).len() as usize) as u64
}

/// `blobs` is the archive of a version: four blobs, for the id of the
/// document, its text, its tags and its timestamp.
pub open spec fn is_archive_of(
    blobs: Seq<BlobPut>,
    ds: DataSourceView,
    document: Document,
    text: Seq<char>,
    tags_json: Seq<char>,
) -> bool {
    let project_id = ds.project.project_id;
    let id_hash = document_id_hash_of(document.document_id@);
    &&& blobs.len() == 4
    &&& blobs[0].path@ == document_id_path_of(project_id, ds.internal_id, id_hash)
    &&& blobs[0].content@ == encode_utf8(document.document_id@)
    &&& blobs[0].content_type == ContentType::TextPlain
    &&& blobs[1].path@ == content_path_of(project_id, ds.internal_id, id_hash, document.hash@)
    &&& blobs[1].content@ == encode_utf8(text)
    &&& blobs[1].content_type == ContentType::TextPlain
    &&& blobs[2].path@ == tags_path_of(project_id, ds.internal_id, id_hash, document.hash@)
    &&& blobs[2].content@ == encode_utf8(tags_json)
    &&& blobs[2].content_type == ContentType::ApplicationJson
    &&& blobs[3].path@ == timestamp_path_of(project_id, ds.internal_id, id_hash, document.hash@)
    &&& blobs[3].content@ == encode_utf8(decimal_of(document.timestamp as nat))
    &&& blobs[3].content_type == ContentType::TextPlain
}

/// `chunks` are the chunks of the version with this fingerprint over these
/// pieces: chunk `i` is piece `i`, at offset `i`, fingerprinted under the
/// version's fingerprint, without a score.
pub open spec fn are_chunks_of(
    chunks: Seq<Chunk>,
    document_hash: Seq<char>,
    pieces: Seq<Seq<char>>,
) -> bool {
    &&& chunks.len() == pieces.len()
    &&& forall|i: int|
        0 <= i < pieces.len() ==> (#[trigger] chunks[i]).offset == i && chunks[i].text@
            == pieces[i] && chunks[i].hash@ == chunk_hash_of(document_hash, pieces[i])
            && chunks[i].score is None
}

/// The chunks are numbered from zero in their order.
pub open spec fn numbered(chunks: Seq<Chunk>) -> bool {
    forall|i: int| 0 <= i < chunks.len() ==> (#[trigger] chunks[i]).offset == i
}

/// The offsets of chunks that are numbered from zero are the numbers below
/// the number of chunks, each once: none is missing and none occurs twice.
pub proof fn lemma_offsets_contiguous(chunks: Seq<Chunk>)
    requires
        numbered(chunks),
    ensures
        Document::offsets_of(chunks) == Seq::new(chunks.len(), |i: int| i as usize),
        Document::offsets_of(chunks).no_duplicates(),
        forall|o: usize| Document::offsets_of(chunks).contains(o) <==> o < chunks.len(),
{
    let offsets = Document::offsets_of(chunks);
    assert(offsets =~= Seq::new(chunks.len(), |i: int| i as usize));
    assert forall|o: usize| offsets.contains(o) <==> o < chunks.len() by {
        if o < chunks.len() {
            assert(offsets[o as int] == o);
        }
    }
}

/// The chunks of a version over the pieces that the splitter returned, in
/// reading order, whatever the order in which the pieces were embedded:
/// chunk `i` is piece `i`, fingerprinted under the version's fingerprint.
pub fn numbered_chunks(document_hash: &str, pieces: Vec<String>) -> (chunks: Vec<Chunk>)
    ensures
        are_chunks_of(chunks@, document_hash@, texts(pieces@)),
        numbered(chunks@),
{
    let mut chunks: Vec<Chunk> = Vec::new();
    let mut i: usize = 0;
    while i < pieces.len()
        invariant
            i <= pieces.len(),
            chunks@.len() == i,
            forall|j: int|
                0 <= j < i ==> (#[trigger] chunks@[j]).offset == j && chunks@[j].text@
                    == pieces@[j]@ && chunks@[j].hash@ == chunk_hash_of(
                    document_hash@,
                    pieces@[j]@,
                ) && chunks@[j].score is None,
        decreases pieces.len() - i,
    {
        let text = pieces[i].clone();
        let hash = chunk_hash(document_hash, text.as_str());
        chunks.push(Chunk { text, hash, offset: i, score: None });
        i = i + 1;
    }
    chunks
}

/// Refuses supplied system tags where the system tags of the document are
/// to be kept: callers cannot set system tags that way, nor double them.
pub fn check_supplied_tags(tags: &Vec<String>, preserve_system_tags: bool, prefix: &str) -> (r:
    Result<(), Error>)
    ensures
        r is Err <==> preserve_system_tags && supplies_system_tag(texts(tags@), prefix@),
        r matches Err(e) ==> e matches Error::SystemTagSupplied { prefix: p } && p@ == prefix@,
{
    if preserve_system_tags && has_system_tag(tags, prefix) {
        proof {
            let i = choose|i: int|
                0 <= i < tags@.len() && is_system_tag(#[trigger] tags@[i]@, prefix@);
            assert(is_system_tag(texts(tags@)[i], prefix@));
        }
        return Err(Error::SystemTagSupplied { prefix: String::from_str(prefix) });
    }
    proof {
        if supplies_system_tag(texts(tags@), prefix@) {
            let i = choose|i: int|
                0 <= i < texts(tags@).len() && is_system_tag(#[trigger] texts(tags@)[i], prefix@);
            assert(is_system_tag(tags@[i]@, prefix@));
        }
    }
    Ok(())
}

/// The tags of the new version of a document: the supplied tags, and behind
/// them, where the system tags are to be kept, the system tags of the
/// version in the store (`current`; empty where there is none). Supplied
/// system tags are refused as in `check_supplied_tags`.
pub fn version_tags(
    supplied: &Vec<String>,
    current: &Vec<String>,
    preserve_system_tags: bool,
    prefix: &str,
) -> (r: Result<Vec<String>, Error>)
    ensures
        r is Err <==> preserve_system_tags && supplies_system_tag(texts(supplied@), prefix@),
        r matches Err(e) ==> e matches Error::SystemTagSupplied { prefix: p } && p@ == prefix@,
        r matches Ok(tags) ==> texts(tags@) == version_tags_of(
            texts(supplied@),
            texts(current@),
            preserve_system_tags,
            prefix@,
        ),
{
    match check_supplied_tags(supplied, preserve_system_tags, prefix) {
        Err(e) => Err(e),
        Ok(_) => {
            if preserve_system_tags {
                Ok(merge_system_tags(supplied, current, prefix))
            } else {
                let tags = clone_strings(supplied);
                assert(texts(tags@) =~= texts(supplied@));
                Ok(tags)
            }
        },
    }
}

impl DataSource {
    /// The new version of a document, before it has chunks. `tags` are the
    /// tags of the version (see `version_tags`), `now` is the time of the
    /// upsert, which is also the document's time where none is given.
    pub fn new_version(
        &self,
        document_id: &str,
        timestamp: Option<u64>,
        now: u64,
        tags: &Vec<String>,
        source_url: &Option<String>,
        text: &str,
    ) -> (document: Document)
        ensures
            document.data_source_id@ == self@.data_source_id,
            document.created == now,
            document.document_id@ == document_id@,
            document.timestamp == (match timestamp {
                Some(t) => t,
                None => now,
            }),
            document.tags@ == tags@,
            document.source_url == *source_url,
            document.hash@ == document_hash_of(
                document_id@,
                text@,
                document.timestamp,
                texts(tags@),
            ),
            document.text_size == byte_len_of(text@),
            document.chunk_count == 0,
            document.chunks@.len() == 0,
            document.text is None,
            document.token_count is None,
    {
        let timestamp = match timestamp {
            Some(t) => t,
            None => now,
        };
        let hash = document_hash(document_id, text, timestamp, tags);
        Document {
            data_source_id: String::from_str(self.data_source_id()),
            created: now,
            document_id: String::from_str(document_id),
            timestamp,
            tags: clone_strings(tags),
            source_url: crate::text::clone_optional(source_url),
            hash,
            text_size: text.len() as u64,
            chunk_count: 0,
            chunks: Vec::new(),
            text: None,
            token_count: None,
        }
    }

    /// The blobs of a version: the document's id, the text, the tags as JSON
    /// (`tags_json`) and the timestamp. They may be written in any order,
    /// and all must be written before the points are touched.
    pub fn archive_blobs(&self, document: &Document, text: &str, tags_json: &str) -> (blobs: Vec<
        BlobPut,
    >)
        ensures
            is_archive_of(blobs@, self@, *document, text@, tags_json@),
    {
        let project_id = self.project().project_id();
        let internal_id = self.internal_id();
        let id_hash = document_id_hash(document.document_id.as_str());
        let stamp = decimal(document.timestamp);
        let mut blobs: Vec<BlobPut> = Vec::new();
        blobs.push(
            BlobPut {
                path: document_id_path(project_id, internal_id, id_hash.as_str()),
                content: document.document_id.as_str().as_bytes_vec(),
                content_type: ContentType::TextPlain,
            },
        );
        blobs.push(
            BlobPut {
                path: content_path(
                    project_id,
                    internal_id,
                    id_hash.as_str(),
                    document.hash.as_str(),
                ),
                content: text.as_bytes_vec(),
                content_type: ContentType::TextPlain,
            },
        );
        blobs.push(
            BlobPut {
                path: tags_path(project_id, internal_id, id_hash.as_str(), document.hash.as_str()),
                content: tags_json.as_bytes_vec(),
                content_type: ContentType::ApplicationJson,
            },
        );
        blobs.push(
            BlobPut {
                path: timestamp_path(
                    project_id,
                    internal_id,
                    id_hash.as_str(),
                    document.hash.as_str(),
                ),
                content: stamp.as_str().as_bytes_vec(),
                content_type: ContentType::TextPlain,
            },
        );
        blobs
    }

    /// The blobs of a version, with the tags written as a JSON array of
    /// strings; see `archive_blobs`.
    pub fn archive_plan(&self, document: &Document, text: &str) -> (blobs: Vec<BlobPut>)
        ensures
            is_archive_of(
                blobs@,
                self@,
                *document,
                text@,
                json_of_strings(texts(document.tags@)),
            ),
    {
        let json = strings_to_json(&document.tags).unwrap();
        self.archive_blobs(document, text, json.as_str())
    }

    /// Gives a version its chunks: the pieces that the splitter returned, in
    /// reading order; see `numbered_chunks`. The document counts
    /// `max_chunk_size` tokens for each chunk.
    pub fn with_chunks(&self, document: Document, pieces: Vec<String>) -> (chunked: Document)
        requires
            pieces@.len() * self@.config.max_chunk_size <= usize::MAX,
        ensures
            same_row(chunked, document),
            chunked.chunk_count == pieces@.len(),
            are_chunks_of(chunked.chunks@, document.hash@, texts(pieces@)),
            numbered(chunked.chunks@),
            chunked.token_count == Some((pieces@.len() * self@.config.max_chunk_size) as usize),
    {
        let chunks = numbered_chunks(document.hash.as_str(), pieces);
        let count = chunks.len();
        let mut chunked = document;
        chunked.chunks = chunks;
        chunked.chunk_count = count;
        chunked.token_count = Some(count * self.config().max_chunk_size);
        chunked
    }

    /// The points of a version, one for each of its chunks and in their
    /// order, each under a fresh id, a random UUID. The vector of a point
    /// is the embedding of its chunk.
    pub fn points(&self, document: &Document) -> (points: Vec<Point>)
        ensures
            points@.len() == document.chunks@.len(),
            forall|i: int|
                0 <= i < points@.len() ==> is_random_uuid((#[trigger] points@[i]).id@)
                    && points@[i].chunk_offset == document.chunks@[i].offset
                    && points@[i].payload@ == payload_of(
                    self@.data_source_id,
                    self@.internal_id,
                    *document,
                    document.chunks@[i],
                ),
    {
        let id_hash = document_id_hash(document.document_id.as_str());
        let mut points: Vec<Point> = Vec::new();
        let mut i: usize = 0;
        while i < document.chunks.len()
            invariant
                i <= document.chunks@.len(),
                points@.len() == i,
                id_hash@ == document_id_hash_of(document.document_id@),
                forall|j: int|
                    0 <= j < i ==> is_random_uuid((#[trigger] points@[j]).id@)
                        && points@[j].chunk_offset == document.chunks@[j].offset
                        && points@[j].payload@ == payload_of(
                        self@.data_source_id,
                        self@.internal_id,
                        *document,
                        document.chunks@[j],
                    ),
            decreases document.chunks@.len() - i,
        {
            let chunk = &document.chunks[i];
            let tags = clone_strings(&document.tags);
            assert(texts(tags@) =~= texts(document.tags@));
            let payload = PointPayload {
                tags,
                timestamp: document.timestamp as i64,
                chunk_offset: chunk.offset as i64,
                chunk_hash: chunk.hash.clone(),
                data_source_id: String::from_str(self.data_source_id()),
                data_source_internal_id: String::from_str(self.internal_id()),
                document_id: document.document_id.clone(),
                document_id_hash: id_hash.clone(),
                text: chunk.text.clone(),
            };
            points.push(Point { id: fresh_id(), chunk_offset: chunk.offset, payload });
            i = i + 1;
        }
        points
    }
}

} // verus!
