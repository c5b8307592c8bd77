//! What the vector index is asked for, as plain values.
//!
//! A data source owns one collection of points, one point per chunk. The
//! values here describe the collection, the payload that each point carries,
//! and the filters by which points are found; the caller turns them into
//! requests to the index.

use crate::text::texts;
use vstd::prelude::*;

verus! {

/// A field of the payload that every chunk's point carries.
#[derive(Clone, Copy, Debug, PartialEq, Eq, Structural)]
pub enum PayloadField {
    Tags,
    Timestamp,
    ChunkOffset,
    ChunkHash,
    DataSourceId,
    DataSourceInternalId,
    DocumentId,
    DocumentIdHash,
    Text,
}

impl PayloadField {
    /// The key under which the field is stored.
    pub open spec fn name_of(self) -> Seq<char> {
        match self {
            PayloadField::Tags => "tags"@,
            PayloadField::Timestamp => "timestamp"@,
            PayloadField::ChunkOffset => "chunk_offset"@,
            PayloadField::ChunkHash => "chunk_hash"@,
            PayloadField::DataSourceId => "data_source_id"@,
            PayloadField::DataSourceInternalId => "data_source_internal_id"@,
            PayloadField::DocumentId => "document_id"@,
            PayloadField::DocumentIdHash => "document_id_hash"@,
            PayloadField::Text => "text"@,
        }
    }

    /// The key under which the field is stored.
    pub fn name(&self) -> (name: &'static str)
        ensures
            name@ == self.name_of(),
    {
        match self {
            PayloadField::Tags => "tags",
            PayloadField::Timestamp => "timestamp",
            PayloadField::ChunkOffset => "chunk_offset",
            PayloadField::ChunkHash => "chunk_hash",
            PayloadField::DataSourceId => "data_source_id",
            PayloadField::DataSourceInternalId => "data_source_internal_id",
            PayloadField::DocumentId => "document_id",
            PayloadField::DocumentIdHash => "document_id_hash",
            PayloadField::Text => "text",
        }
    }
}

/// One condition on the payload of a point.
#[derive(Debug)]
#[allow(inconsistent_fields)]
pub enum Condition {
    /// The field holds exactly this keyword.
    Keyword { field: PayloadField, value: String },
    /// The field holds one of these keywords.
    AnyKeyword { field: PayloadField, values: Vec<String> },
    /// The field holds one of these integers.
    AnyInteger { field: PayloadField, values: Vec<i64> },
    /// The field is a number not below the bound.
    AtLeast { field: PayloadField, bound: u64 },
    /// The field is a number not above the bound.
    AtMost { field: PayloadField, bound: u64 },
}

/// What a condition says.
#[allow(inconsistent_fields)]
pub enum ConditionView {
    Keyword { field: PayloadField, value: Seq<char> },
    AnyKeyword { field: PayloadField, values: Seq<Seq<char>> },
    AnyInteger { field: PayloadField, values: Seq<i64> },
    AtLeast { field: PayloadField, bound: u64 },
    AtMost { field: PayloadField, bound: u64 },
}

impl View for Condition {
    type V = ConditionView;

    open spec fn view(&self) -> ConditionView {
        match *self {
            Condition::Keyword { field, value } => ConditionView::Keyword { field, value: value@ },
            Condition::AnyKeyword { field, values } => ConditionView::AnyKeyword {
                field,
                values: texts(values@),
            },
            Condition::AnyInteger { field, values } => ConditionView::AnyInteger {
                field,
                values: values@,
            },
            Condition::AtLeast { field, bound } => ConditionView::AtLeast { field, bound },
            Condition::AtMost { field, bound } => ConditionView::AtMost { field, bound },
        }
    }
}

/// A filter on points: every condition of `must` holds, and none of `must_not`.
#[derive(Debug)]
pub struct Filter {
    pub must: Vec<Condition>,
    pub must_not: Vec<Condition>,
}

/// What a filter says.
pub struct FilterView {
    pub must: Seq<ConditionView>,
    pub must_not: Seq<ConditionView>,
}

/// What each of the conditions says.
pub open spec fn conditions_of(conditions: Seq<Condition>) -> Seq<ConditionView> {
    Seq::new(conditions.len(), |i: int| conditions[i]@)
}

impl View for Filter {
    type V = FilterView;

    open spec fn view(&self) -> FilterView {
        FilterView { must: conditions_of(self.must@), must_not: conditions_of(self.must_not@) }
    }
}

/// How the distance of two vectors is measured.
#[derive(Clone, Copy, Debug, PartialEq, Eq, Structural)]
pub enum Distance {
    Cosine,
}

/// How a payload field is indexed.
#[derive(Clone, Copy, Debug, PartialEq, Eq, Structural)]
pub enum FieldIndexKind {
    Keyword,
    Integer,
}

/// An index on a payload field.
#[derive(Clone, Copy, Debug, PartialEq, Eq, Structural)]
pub struct FieldIndex {
    pub field: PayloadField,
    pub kind: FieldIndexKind,
}

/// The collection of a data source.
#[derive(Debug)]
pub struct CollectionConfig {
    pub name: String,
    pub vector_size: u64,
    pub distance: Distance,
    pub hnsw_m: u64,
    pub memmap_threshold: u64,
    pub on_disk_payload: bool,
}

/// Links of the HNSW graph per node.
pub const HNSW_M: u64 = 16;

/// Size from which segments are memory-mapped.
pub const MEMMAP_THRESHOLD: u64 = 1024;

/// The payload of a chunk's point.
#[derive(Debug)]
pub struct PointPayload {
    pub tags: Vec<String>,
    pub timestamp: i64,
    pub chunk_offset: i64,
    pub chunk_hash: String,
    pub data_source_id: String,
    pub data_source_internal_id: String,
    pub document_id: String,
    pub document_id_hash: String,
    pub text: String,
}

/// What a payload holds.
pub struct PointPayloadView {
    pub tags: Seq<Seq<char>>,
    pub timestamp: i64,
    pub chunk_offset: i64,
    pub chunk_hash: Seq<char>,
    pub data_source_id: Seq<char>,
    pub data_source_internal_id: Seq<char>,
    pub document_id: Seq<char>,
    pub document_id_hash: Seq<char>,
    pub text: Seq<char>,
}

impl View for PointPayload {
    type V = PointPayloadView;

    open spec fn view(&self) -> PointPayloadView {
        PointPayloadView {
            tags: texts(self.tags@),
            timestamp: self.timestamp,
            chunk_offset: self.chunk_offset,
            chunk_hash: self.chunk_hash@,
            data_source_id: self.data_source_id@,
            data_source_internal_id: self.data_source_internal_id@,
            document_id: self.document_id@,
            document_id_hash: self.document_id_hash@,
            text: self.text@,
        }
    }
}

/// A point to insert. Its vector is the embedding of the chunk at
/// `chunk_offset`, which the caller holds.
#[derive(Debug)]
pub struct Point {
    pub id: String,
    pub chunk_offset: usize,
    pub payload: PointPayload,
}

/// The indexes of a collection: keywords on the document's identity and on
/// the tags, integers on the timestamp.
pub open spec fn field_indexes_of() -> Seq<FieldIndex> {
    seq![
        FieldIndex { field: PayloadField::DocumentIdHash, kind: FieldIndexKind::Keyword },
        FieldIndex { field: PayloadField::Tags, kind: FieldIndexKind::Keyword },
        FieldIndex { field: PayloadField::Timestamp, kind: FieldIndexKind::Integer },
    ]
}

/// The indexes to create on a new collection, in the order of creation.
pub fn field_indexes() -> (indexes: Vec<FieldIndex>)
    ensures
        indexes@ == field_indexes_of(),
{
    let mut indexes: Vec<FieldIndex> = Vec::new();
    indexes.push(FieldIndex { field: PayloadField::DocumentIdHash, kind: FieldIndexKind::Keyword });
    indexes.push(FieldIndex { field: PayloadField::Tags, kind: FieldIndexKind::Keyword });
    indexes.push(FieldIndex { field: PayloadField::Timestamp, kind: FieldIndexKind::Integer });
    assert(indexes@ =~= field_indexes_of());
    indexes
}

/// The filter that selects the points of one document by the fingerprint of
/// its id.
pub open spec fn document_filter_of(document_id_hash: Seq<char>) -> FilterView {
    FilterView {
        must: seq![
            ConditionView::Keyword { field: PayloadField::DocumentIdHash, value: document_id_hash },
        ],
        must_not: Seq::empty(),
    }
}

/// The filter that selects the points of one document by the fingerprint of
/// its id.
pub fn document_filter(document_id_hash: String) -> (filter: Filter)
    ensures
        filter@ == document_filter_of(document_id_hash@),
{
    let mut must: Vec<Condition> = Vec::new();
    must.push(Condition::Keyword { field: PayloadField::DocumentIdHash, value: document_id_hash });
    let filter = Filter { must, must_not: Vec::new() };
    assert(filter@.must =~= document_filter_of(document_id_hash@).must);
    assert(filter@.must_not =~= document_filter_of(document_id_hash@).must_not);
    filter
}

} // verus!
