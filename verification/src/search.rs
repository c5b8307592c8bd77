//! The read path: from the points that the index returned to documents.

use crate::data_source::{collection_name_of, DataSource};
use crate::document::{same_row, Chunk, ChunkView, Document};
use crate::error::Error;
use crate::filter::{point_filter_of, search_point_filter, SearchFilter};
use crate::index::{Filter, PayloadField};
use crate::order::{sort_by_keys, sorted_by_keys};
use crate::text::{lemma_filter_push, texts};
use vstd::prelude::*;

verus! {

/// The largest number of results that one search may ask for.
pub const MAX_TOP_K_SEARCH: usize = 128;

/// How many documents of one search are loaded and expanded at a time.
pub const MAX_DOCUMENTS_IN_FLIGHT: usize = 16;

/// What the vector index is asked for by a search.
#[derive(Debug)]
pub struct SearchRequest {
    /// The collection to search.
    pub collection: String,
    /// Which points may be returned; all where there is none.
    pub filter: Option<Filter>,
    /// How many points to return at most.
    pub limit: u64,
    /// Whether the points come with their payload.
    pub with_payload: bool,
}

/// Refuses a search for more than `MAX_TOP_K_SEARCH` results.
pub fn check_top_k(top_k: usize) -> (r: Result<(), Error>)
    ensures
        r is Err <==> top_k > MAX_TOP_K_SEARCH,
        r matches Err(e) ==> e is TopKTooLarge,
{
    if top_k > MAX_TOP_K_SEARCH {
        Err(Error::TopKTooLarge)
    } else {
        Ok(())
    }
}

impl DataSource {
    /// What to ask the vector index for: the `top_k` points closest to the
    /// embedding of the query among those that pass the filter, with their
    /// payload. Refuses more than `MAX_TOP_K_SEARCH` results.
    pub fn search_request(&self, top_k: usize, filter: &Option<SearchFilter>) -> (r: Result<
        SearchRequest,
        Error,
    >)
        ensures
            r is Err <==> top_k > MAX_TOP_K_SEARCH,
            r matches Err(e) ==> e is TopKTooLarge,
            r matches Ok(request) ==> request.collection@ == collection_name_of(self@.internal_id)
                && request.limit == top_k && request.with_payload && (match *filter {
                Some(f) => request.filter matches Some(p) && p@ == point_filter_of(f),
                None => request.filter is None,
            }),
    {
        match check_top_k(top_k) {
            Err(e) => Err(e),
            Ok(_) => Ok(
                SearchRequest {
                    collection: self.collection_name(),
                    filter: search_point_filter(filter),
                    limit: top_k as u64,
                    with_payload: true,
                },
            ),
        }
    }
}

/// A value of a point's payload.
#[derive(Debug)]
pub enum PayloadValue {
    /// A string.
    Text(String),
    /// An integer.
    Integer(i64),
    /// Anything else.
    Other,
}

/// A point that a search returned, with the fields of its payload that a
/// hit is read from. A field that the payload lacks is `None`. `score`
/// orders the points as their similarity does; see `Chunk`.
#[derive(Debug)]
pub struct ScoredPoint {
    pub document_id: Option<PayloadValue>,
    pub text: Option<PayloadValue>,
    pub chunk_hash: Option<PayloadValue>,
    pub chunk_offset: Option<PayloadValue>,
    pub score: i64,
}

/// A hit: a chunk that a search found, and the document that it belongs to.
#[derive(Debug)]
pub struct Hit {
    pub document_id: String,
    pub chunk: Chunk,
}

/// The string that a field holds, if it holds one.
pub open spec fn text_of(value: Option<PayloadValue>) -> Option<Seq<char>> {
    match value {
        Some(PayloadValue::Text(s)) => Some(s@),
        _ => None,
    }
}

/// The integer that a field holds, if it holds one.
pub open spec fn integer_of(value: Option<PayloadValue>) -> Option<i64> {
    match value {
        Some(PayloadValue::Integer(i)) => Some(i),
        _ => None,
    }
}

/// The first field that a hit cannot be read from, if there is one: the
/// fields are read in the order document, text, fingerprint, offset.
pub open spec fn unreadable_of(point: ScoredPoint) -> Option<PayloadField> {
    if text_of(point.document_id) is None {
        Some(PayloadField::DocumentId)
    } else if text_of(point.text) is None {
        Some(PayloadField::Text)
    } else if text_of(point.chunk_hash) is None {
        Some(PayloadField::ChunkHash)
    } else if integer_of(point.chunk_offset) is None {
        Some(PayloadField::ChunkOffset)
    } else {
        None
    }
}

/// The chunk that a readable point stands for.
pub open spec fn hit_chunk_of(point: ScoredPoint) -> ChunkView {
    ChunkView {
        text: text_of(point.text)->0,
        hash: text_of(point.chunk_hash)->0,
        offset: integer_of(point.chunk_offset)->0 as usize,
        score: Some(point.score),
    }
}

fn read_text(value: &Option<PayloadValue>, field: PayloadField) -> (r: Result<String, Error>)
    ensures
        match text_of(*value) {
            Some(s) => r matches Ok(t) && t@ == s,
            None => r matches Err(Error::MissingPayloadField { field: f }) && f == field,
        },
{
    match value {
        Some(PayloadValue::Text(s)) => Ok(s.clone()),
        _ => Err(Error::MissingPayloadField { field }),
    }
}

fn read_integer(value: &Option<PayloadValue>, field: PayloadField) -> (r: Result<i64, Error>)
    ensures
        match integer_of(*value) {
            Some(i) => r matches Ok(j) && j == i,
            None => r matches Err(Error::MissingPayloadField { field: f }) && f == field,
        },
{
    match value {
        Some(PayloadValue::Integer(i)) => Ok(*i),
        _ => Err(Error::MissingPayloadField { field }),
    }
}

/// Reads a hit from a point that a search returned.
pub fn read_hit(point: &ScoredPoint) -> (r: Result<Hit, Error>)
    ensures
        match unreadable_of(*point) {
            Some(field) => r matches Err(Error::MissingPayloadField { field: f }) && f == field,
            None => r matches Ok(hit) && hit.document_id@ == text_of(point.document_id)->0
                && hit.chunk@ == hit_chunk_of(*point),
        },
{
    let document_id = read_text(&point.document_id, PayloadField::DocumentId)?;
    let text = read_text(&point.text, PayloadField::Text)?;
    let hash = read_text(&point.chunk_hash, PayloadField::ChunkHash)?;
    let offset = read_integer(&point.chunk_offset, PayloadField::ChunkOffset)?;
    Ok(
        Hit {
            document_id,
            chunk: Chunk { text, hash, offset: offset as usize, score: Some(point.score) },
        },
    )
}

/// The field at which reading the points fails, if it does: the first
/// unreadable field of the first point that has one.
pub open spec fn first_unreadable_of(points: Seq<ScoredPoint>) -> Option<PayloadField>
    decreases points.len(),
{
    if points.len() == 0 {
        None
    } else {
        match first_unreadable_of(points.drop_last()) {
            Some(field) => Some(field),
            None => unreadable_of(points.last()),
        }
    }
}

/// Reads the hits from the points that a search returned, in their order.
/// Fails at the first point that cannot be read, for its first such field.
pub fn read_hits(points: &Vec<ScoredPoint>) -> (r: Result<Vec<Hit>, Error>)
    ensures
        match first_unreadable_of(points@) {
            Some(field) => r matches Err(Error::MissingPayloadField { field: f }) && f == field,
            None => r matches Ok(hits) && hits@.len() == points@.len() && forall|i: int|
                0 <= i < hits@.len() ==> (#[trigger] hits@[i]).document_id@ == text_of(
                    points@[i].document_id,
                )->0 && hits@[i].chunk@ == hit_chunk_of(points@[i]),
        },
{
    let mut hits: Vec<Hit> = Vec::new();
    let mut i: usize = 0;
    assert(points@.take(0) =~= Seq::<ScoredPoint>::empty());
    while i < points.len()
        invariant
            i <= points@.len(),
            hits@.len() == i,
            first_unreadable_of(points@.take(i as int)) is None,
            forall|j: int|
                0 <= j < i ==> (#[trigger] hits@[j]).document_id@ == text_of(
                    points@[j].document_id,
                )->0 && hits@[j].chunk@ == hit_chunk_of(points@[j]),
        decreases points@.len() - i,
    {
        proof {
            assert(points@.take(i + 1).drop_last() =~= points@.take(i as int));
            assert(points@.take(i + 1).last() == points@[i as int]);
        }
        match read_hit(&points[i]) {
            Ok(hit) => {
                hits.push(hit);
            },
            Err(e) => {
                proof {
                    lemma_first_unreadable_stays(points@, i + 1);
                }
                return Err(e);
            },
        }
        i = i + 1;
    }
    assert(points@.take(points@.len() as int) =~= points@);
    Ok(hits)
}

/// Once reading has failed, more points do not change where.
proof fn lemma_first_unreadable_stays(points: Seq<ScoredPoint>, n: int)
    requires
        0 <= n <= points.len(),
        first_unreadable_of(points.take(n)) is Some,
    ensures
        first_unreadable_of(points) == first_unreadable_of(points.take(n)),
    decreases points.len() - n,
{
    if n < points.len() {
        assert(points.take(n + 1).drop_last() =~= points.take(n));
        lemma_first_unreadable_stays(points, n + 1);
    } else {
        assert(points.take(n) =~= points);
    }
}

/// The ids of the hits, each as its characters.
pub open spec fn hit_ids(hits: Seq<Hit>) -> Seq<Seq<char>> {
    Seq::new(hits.len(), |i: int| hits[i].document_id@)
}

/// The elements of a list in the order in which they first occur.
pub open spec fn distinct_of(ids: Seq<Seq<char>>) -> Seq<Seq<char>>
    decreases ids.len(),
{
    if ids.len() == 0 {
        ids
    } else {
        let seen = distinct_of(ids.drop_last());
        if seen.contains(ids.last()) {
            seen
        } else {
            seen.push(ids.last())
        }
    }
}

fn holds(ids: &Vec<String>, id: &String) -> (r: bool)
    ensures
        r == texts(ids@).contains(id@),
{
    let mut i: usize = 0;
    while i < ids.len()
        invariant
            i <= ids@.len(),
            forall|j: int| 0 <= j < i ==> ids@[j]@ != id@,
        decreases ids@.len() - i,
    {
        if ids[i] == *id {
            assert(texts(ids@)[i as int] == id@);
            return true;
        }
        i = i + 1;
    }
    false
}

/// A list of distinct elements holds nothing twice, and holds what the
/// list it was made from holds.
pub proof fn lemma_distinct_of(ids: Seq<Seq<char>>)
    ensures
        distinct_of(ids).no_duplicates(),
        forall|id: Seq<char>| distinct_of(ids).contains(id) <==> ids.contains(id),
    decreases ids.len(),
{
    if ids.len() > 0 {
        let seen = distinct_of(ids.drop_last());
        let last = ids.last();
        lemma_distinct_of(ids.drop_last());
        assert forall|id: Seq<char>| distinct_of(ids).contains(id) <==> ids.contains(id) by {
            if ids.contains(id) {
                let i = choose|i: int| 0 <= i < ids.len() && ids[i] == id;
                if i < ids.len() - 1 {
                    assert(ids.drop_last()[i] == id);
                    assert(ids.drop_last().contains(id));
                    assert(seen.contains(id));
                    let j = choose|j: int| 0 <= j < seen.len() && seen[j] == id;
                    assert(distinct_of(ids)[j] == id);
                } else if !seen.contains(last) {
                    assert(distinct_of(ids)[seen.len() as int] == id);
                } else {
                    let j = choose|j: int| 0 <= j < seen.len() && seen[j] == id;
                    assert(distinct_of(ids)[j] == id);
                }
            }
            if distinct_of(ids).contains(id) {
                let j = choose|j: int| 0 <= j < distinct_of(ids).len() && distinct_of(ids)[j] == id;
                if j < seen.len() {
                    assert(seen[j] == id);
                    assert(seen.contains(id));
                    assert(ids.drop_last().contains(id));
                    let i = choose|i: int|
                        0 <= i < ids.drop_last().len() && ids.drop_last()[i] == id;
                    assert(ids[i] == id);
                } else {
                    assert(ids[ids.len() - 1] == id);
                }
            }
        }
    }
}

/// The documents that the hits belong to, as a list that stands for their
/// set: every id once, in the order in which the documents first occur
/// among the hits.
pub fn document_ids(hits: &Vec<Hit>) -> (ids: Vec<String>)
    ensures
        texts(ids@) == distinct_of(hit_ids(hits@)),
        texts(ids@).no_duplicates(),
        forall|id: Seq<char>| texts(ids@).contains(id) <==> hit_ids(hits@).contains(id),
{
    proof {
        lemma_distinct_of(hit_ids(hits@));
    }
    let mut ids: Vec<String> = Vec::new();
    let mut i: usize = 0;
    assert(hit_ids(hits@).take(0) =~= Seq::<Seq<char>>::empty());
    assert(texts(ids@) =~= Seq::<Seq<char>>::empty());
    while i < hits.len()
        invariant
            i <= hits@.len(),
            texts(ids@) == distinct_of(hit_ids(hits@).take(i as int)),
        decreases hits@.len() - i,
    {
        let ghost before = texts(ids@);
        proof {
            let next = hit_ids(hits@).take(i + 1);
            assert(next.drop_last() =~= hit_ids(hits@).take(i as int));
            assert(next.last() == hits@[i as int].document_id@);
        }
        if !holds(&ids, &hits[i].document_id) {
            ids.push(hits[i].document_id.clone());
            assert(texts(ids@) =~= before.push(hits@[i as int].document_id@));
        }
        i = i + 1;
    }
    assert(hit_ids(hits@).take(hits@.len() as int) =~= hit_ids(hits@));
    ids
}

/// The chunks that the hits hold.
pub open spec fn hit_chunks_of(hits: Seq<Hit>) -> Seq<Chunk> {
    Seq::new(hits.len(), |i: int| hits[i].chunk)
}

/// The hits that belong to a document, in their order.
pub open spec fn hits_of(hits: Seq<Hit>, document_id: Seq<char>) -> Seq<Hit> {
    hits.filter(|hit: Hit| hit.document_id@ == document_id)
}

/// The chunks of the hits that belong to the document, in the order of the
/// hits.
pub fn document_chunks(hits: &Vec<Hit>, document_id: &String) -> (chunks: Vec<Chunk>)
    ensures
        chunks@ == hit_chunks_of(hits_of(hits@, document_id@)),
{
    let ghost belongs = |hit: Hit| hit.document_id@ == document_id@;
    let mut chunks: Vec<Chunk> = Vec::new();
    let mut i: usize = 0;
    proof {
        reveal(Seq::filter);
        assert(hits@.take(0) =~= Seq::<Hit>::empty());
        assert(chunks@ =~= hit_chunks_of(hits@.take(0).filter(belongs)));
    }
    while i < hits.len()
        invariant
            i <= hits@.len(),
            belongs == |hit: Hit| hit.document_id@ == document_id@,
            chunks@ == hit_chunks_of(hits@.take(i as int).filter(belongs)),
        decreases hits@.len() - i,
    {
        proof {
            assert(hits@.take(i + 1) =~= hits@.take(i as int).push(hits@[i as int]));
            lemma_filter_push(hits@.take(i as int), belongs, hits@[i as int]);
        }
        if hits[i].document_id == *document_id {
            chunks.push(hits[i].chunk.clone());
            assert(chunks@ =~= hit_chunks_of(hits@.take(i + 1).filter(belongs)));
        }
        i = i + 1;
    }
    assert(hits@.take(hits@.len() as int) =~= hits@);
    chunks
}

/// The document that a hit names, as the metadata store returned it. Fails
/// where the store does not hold it.
pub fn loaded_document(row: Option<Document>) -> (r: Result<Document, Error>)
    ensures
        match row {
            Some(document) => r == Ok::<Document, Error>(document),
            None => r matches Err(e) && e is DocumentNotFound,
        },
{
    match row {
        Some(document) => Ok(document),
        None => Err(Error::DocumentNotFound),
    }
}

/// Gives a document its hits: the chunks of the hits that belong to it, in
/// the order of the hits. The document counts `max_chunk_size` tokens for
/// each of them.
pub fn with_hits(document: Document, hits: &Vec<Hit>, max_chunk_size: usize) -> (found: Document)
    requires
        hits@.len() * max_chunk_size <= usize::MAX,
    ensures
        same_row(found, document),
        found.chunk_count == document.chunk_count,
        found.chunks@ == hit_chunks_of(hits_of(hits@, document.document_id@)),
        found.token_count == Some((found.chunks@.len() * max_chunk_size) as usize),
{
    let chunks = document_chunks(hits, &document.document_id);
    proof {
        hits@.lemma_filter_len(|hit: Hit| hit.document_id@ == document.document_id@);
        assert(chunks@.len() * max_chunk_size <= usize::MAX) by (nonlinear_arith)
            requires
                0 <= chunks@.len() <= hits@.len(),
                0 <= max_chunk_size,
                hits@.len() * max_chunk_size <= usize::MAX,
        ;
    }
    let mut found = document;
    found.token_count = Some(chunks.len() * max_chunk_size);
    found.chunks = chunks;
    found
}

/// The key that puts the higher score first; no score counts as zero.
pub open spec fn score_key(score: Option<i64>) -> i128 {
    match score {
        Some(s) => (-(s as int)) as i128,
        None => 0,
    }
}

/// The key that puts the higher score first.
pub fn key_of_score(score: Option<i64>) -> (key: i128)
    ensures
        key == score_key(score),
{
    match score {
        Some(s) => -(s as i128),
        None => 0,
    }
}

/// The keys that order documents by the score of their first chunk,
/// highest first.
pub open spec fn document_keys(documents: Seq<Document>) -> Seq<i128> {
    Seq::new(documents.len(), |i: int| score_key(documents[i].chunks@[0].score))
}

/// Puts the documents of a search in their final order: by the score of
/// their first chunk, which is their best, highest first. Documents with
/// equal scores keep their order.
pub fn order_documents(documents: Vec<Document>) -> (ordered: Vec<Document>)
    requires
        forall|i: int| 0 <= i < documents@.len() ==> (#[trigger] documents@[i]).chunks@.len() > 0,
    ensures
        ordered@ == sorted_by_keys(documents@, document_keys(documents@)),
{
    let mut keys: Vec<i128> = Vec::new();
    let mut i: usize = 0;
    while i < documents.len()
        invariant
            i <= documents@.len(),
            forall|j: int|
                0 <= j < documents@.len() ==> (#[trigger] documents@[j]).chunks@.len() > 0,
            keys@ == document_keys(documents@).take(i as int),
        decreases documents@.len() - i,
    {
        keys.push(key_of_score(documents[i].chunks[0].score));
        assert(keys@ =~= document_keys(documents@).take(i + 1));
        i = i + 1;
    }
    assert(keys@ =~= document_keys(documents@));
    let mut ordered = documents;
    sort_by_keys(&mut ordered, &mut keys);
    ordered
}

} // verus!
