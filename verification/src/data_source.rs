//! A data source: a named corpus of documents within a project.
//!
//! A data source owns one collection of the vector index, one directory of
//! the blob archive and its rows of the metadata store. Its configuration
//! never changes: another model or another chunk size is another data source.

use crate::blob::{created_path, created_path_of, BlobPut, ContentType};
use crate::fingerprint::{document_id_hash, document_id_hash_of};
use crate::index::{
    document_filter, document_filter_of, field_indexes, field_indexes_of, CollectionConfig,
    Condition, ConditionView, Distance, FieldIndex, Filter, FilterView, PayloadField, HNSW_M,
    MEMMAP_THRESHOLD,
};
use crate::text::{clone_optional, decimal, decimal_of, texts};
use vstd::prelude::*;
use vstd::string::{StrSliceExecFns, StringExecFns};
use vstd::utf8::encode_utf8;

verus! {

/// The project that a data source belongs to.
#[derive(Clone, Copy, Debug, PartialEq, Eq, Structural)]
pub struct Project {
    pub project_id: i64,
}

impl Project {
    /// The project with this id.
    pub fn new_from_id(project_id: i64) -> (project: Self)
        ensures
            project.project_id == project_id,
    {
        Project { project_id }
    }

    /// The id of the project.
    pub fn project_id(&self) -> (id: i64)
        ensures
            id == self.project_id,
    {
        self.project_id
    }
}

/// How the documents of a data source are split and embedded.
///
/// `max_chunk_size` is the number of tokens of a chunk, and the unit in which
/// the tokens of a document are counted. `extras` is handed to the embedding
/// provider as it is.
#[derive(Debug)]
pub struct DataSourceConfig {
    pub provider_id: String,
    pub model_id: String,
    pub extras: Option<String>,
    pub splitter_id: String,
    pub max_chunk_size: usize,
    pub use_cache: bool,
}

impl Clone for DataSourceConfig {
    fn clone(&self) -> (copy: Self)
        ensures
            copy == *self,
    {
        DataSourceConfig {
            provider_id: self.provider_id.clone(),
            model_id: self.model_id.clone(),
            extras: clone_optional(&self.extras),
            splitter_id: self.splitter_id.clone(),
            max_chunk_size: self.max_chunk_size,
            use_cache: self.use_cache,
        }
    }
}

/// A data source. `data_source_id` is the name that users know it by;
/// `internal_id` names its collection and its directory.
#[derive(Debug)]
pub struct DataSource {
    project: Project,
    created: u64,
    data_source_id: String,
    internal_id: String,
    config: DataSourceConfig,
}

/// What a data source is made of.
pub struct DataSourceView {
    pub project: Project,
    pub created: u64,
    pub data_source_id: Seq<char>,
    pub internal_id: Seq<char>,
    pub config: DataSourceConfig,
}

impl View for DataSource {
    type V = DataSourceView;

    closed spec fn view(&self) -> DataSourceView {
        DataSourceView {
            project: self.project,
            created: self.created,
            data_source_id: self.data_source_id@,
            internal_id: self.internal_id@,
            config: self.config,
        }
    }
}

/// What is done, in this order, to set a data source up.
#[derive(Debug)]
pub struct SetupPlan {
    /// The blob that records the time of creation.
    pub created: BlobPut,
    /// The collection to create.
    pub collection: CollectionConfig,
    /// The indexes to create on the collection's payload.
    pub indexes: Vec<FieldIndex>,
}

/// A change of the tags on the points of one document.
#[derive(Debug)]
pub struct TagsUpdate {
    /// Selects the points of the document.
    pub filter: Filter,
    /// The tags that each of them carries afterwards.
    pub tags: Vec<String>,
}

/// The filter that selects the points whose payload names exactly this
/// document.
pub open spec fn named_document_of(document_id: Seq<char>) -> FilterView {
    FilterView {
        must: seq![
            ConditionView::Keyword { field: PayloadField::DocumentId, value: document_id },
        ],
        must_not: Seq::empty(),
    }
}

/// The name of the collection of the data source with this internal id.
pub open spec fn collection_name_of(internal_id: Seq<char>) -> Seq<char> {
    "ds_"@ + internal_id
}

/// A digit of lowercase hexadecimal.
pub open spec fn is_lower_hex(c: char) -> bool {
    c == '0' || c == '1' || c == '2' || c == '3' || c == '4' || c == '5' || c == '6' || c == '7'
        || c == '8' || c == '9' || c == 'a' || c == 'b' || c == 'c' || c == 'd' || c == 'e' || c
        == 'f'
}

/// The text of a random UUID: 32 digits of lowercase hexadecimal in groups
/// of 8, 4, 4, 4 and 12, with a hyphen between the groups; the third group
/// begins with the version, 4, and the fourth with the variant.
pub open spec fn is_random_uuid(id: Seq<char>) -> bool {
    &&& id.len() == 36
    &&& forall|i: int|
        0 <= i < 36 ==> if i == 8 || i == 13 || i == 18 || i == 23 {
            #[trigger] id[i] == '-'
        } else {
            is_lower_hex(id[i])
        }
    &&& id[14] == '4'
    &&& (id[19] == '8' || id[19] == '9' || id[19] == 'a' || id[19] == 'b')
}

/// Calls `uuid::Uuid::new_v4` and writes the id out as `Display` does, in
/// its hyphenated lowercase form. The id is random: the contract claims its
/// form, with the version and variant that `new_v4` sets, and nothing of
/// the other digits.
#[verifier::external_body]
pub(crate) fn fresh_id() -> (id: String)
    ensures
        is_random_uuid(id@),
{
    uuid::Uuid::new_v4().to_string()
}

impl DataSource {
    /// A new data source, created at `created`, under a fresh internal id:
    /// a random UUID.
    pub fn new(
        project: &Project,
        data_source_id: &str,
        config: &DataSourceConfig,
        created: u64,
    ) -> (ds: Self)
        ensures
            ds@.project == *project,
            ds@.created == created,
            ds@.data_source_id == data_source_id@,
            is_random_uuid(ds@.internal_id),
            ds@.config == *config,
    {
        let internal_id = fresh_id();
        DataSource::new_from_store(project, created, data_source_id, internal_id.as_str(), config)
    }

    /// The data source that the metadata store holds under these values.
    pub fn new_from_store(
        project: &Project,
        created: u64,
        data_source_id: &str,
        internal_id: &str,
        config: &DataSourceConfig,
    ) -> (ds: Self)
        ensures
            ds@.project == *project,
            ds@.created == created,
            ds@.data_source_id == data_source_id@,
            ds@.internal_id == internal_id@,
            ds@.config == *config,
    {
        DataSource {
            project: *project,
            created,
            data_source_id: String::from_str(data_source_id),
            internal_id: String::from_str(internal_id),
            config: config.clone(),
        }
    }

    /// The project of the data source.
    pub fn project(&self) -> (project: &Project)
        ensures
            *project == self@.project,
    {
        &self.project
    }

    /// When the data source was created.
    pub fn created(&self) -> (created: u64)
        ensures
            created == self@.created,
    {
        self.created
    }

    /// The name that users know the data source by.
    pub fn data_source_id(&self) -> (id: &str)
        ensures
            id@ == self@.data_source_id,
    {
        self.data_source_id.as_str()
    }

    /// The name of the data source in the stores.
    pub fn internal_id(&self) -> (id: &str)
        ensures
            id@ == self@.internal_id,
    {
        self.internal_id.as_str()
    }

    /// The configuration of the data source.
    pub fn config(&self) -> (config: &DataSourceConfig)
        ensures
            *config == self@.config,
    {
        &self.config
    }

    /// The name of the data source's collection in the vector index.
    pub fn collection_name(&self) -> (name: String)
        ensures
            name@ == collection_name_of(self@.internal_id),
    {
        let mut name = String::from_str("ds_");
        name.append(self.internal_id.as_str());
        name
    }

    /// What to do to set the data source up, given the number of dimensions
    /// of the embedding model: record the time of creation in the archive,
    /// create the collection, then its indexes.
    pub fn setup_plan(&self, embedding_size: u64) -> (plan: SetupPlan)
        ensures
            plan.created.path@ == created_path_of(self@.project.project_id, self@.internal_id),
            plan.created.content@ == encode_utf8(decimal_of(self@.created as nat)),
            plan.created.content_type == ContentType::TextPlain,
            plan.collection.name@ == collection_name_of(self@.internal_id),
            plan.collection.vector_size == embedding_size,
            plan.collection.distance == Distance::Cosine,
            plan.collection.hnsw_m == HNSW_M,
            plan.collection.memmap_threshold == MEMMAP_THRESHOLD,
            plan.collection.on_disk_payload,
            plan.indexes@ == field_indexes_of(),
    {
        let stamp = decimal(self.created);
        let created = BlobPut {
            path: created_path(self.project.project_id, self.internal_id.as_str()),
            content: stamp.as_str().as_bytes_vec(),
            content_type: ContentType::TextPlain,
        };
        let collection = CollectionConfig {
            name: self.collection_name(),
            vector_size: embedding_size,
            distance: Distance::Cosine,
            hnsw_m: HNSW_M,
            memmap_threshold: MEMMAP_THRESHOLD,
            on_disk_payload: true,
        };
        SetupPlan { created, collection, indexes: field_indexes() }
    }

    /// The change that brings the new tags of a document, as the metadata
    /// store returned them, to the points of the document: every point
    /// whose `document_id` is exactly the given id gets exactly `new_tags`.
    pub fn tags_update(&self, document_id: String, new_tags: Vec<String>) -> (update: TagsUpdate)
        ensures
            texts(update.tags@) == texts(new_tags@),
            update.filter@ == named_document_of(document_id@),
    {
        let mut must: Vec<Condition> = Vec::new();
        must.push(Condition::Keyword { field: PayloadField::DocumentId, value: document_id });
        let filter = Filter { must, must_not: Vec::new() };
        assert(filter@.must =~= named_document_of(document_id@).must);
        assert(filter@.must_not =~= named_document_of(document_id@).must_not);
        TagsUpdate { filter, tags: new_tags }
    }

    /// The filter that selects the points of a document, for their removal.
    /// The points go first, the row of the metadata store after them; the
    /// versions in the archive stay.
    pub fn document_points(&self, document_id: &str) -> (filter: Filter)
        ensures
            filter@ == document_filter_of(document_id_hash_of(document_id@)),
    {
        document_filter(document_id_hash(document_id))
    }
}

} // verus!
