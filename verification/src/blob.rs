//! Where the raw content of a data source is archived.
//!
//! Everything of a data source lies under `{project}/{internal id}`. A
//! document has a directory named by the fingerprint of its id, and each of
//! its versions a directory below that, named by the version's fingerprint:
//! what is stored under a version's fingerprint never changes.

use crate::text::{push_signed_decimal, signed_decimal_of};
use vstd::prelude::*;
use vstd::string::StringExecFns;

verus! {

/// The content type under which a blob is stored.
#[derive(Clone, Copy, Debug, PartialEq, Eq, Structural)]
pub enum ContentType {
    TextPlain,
    ApplicationJson,
}

impl ContentType {
    /// The content type as it is sent.
    pub open spec fn name_of(self) -> Seq<char> {
        match self {
            ContentType::TextPlain => "text/plain"@,
            ContentType::ApplicationJson => "application/json"@,
        }
    }

    /// The content type as it is sent.
    pub fn name(&self) -> (name: &'static str)
        ensures
            name@ == self.name_of(),
    {
        match self {
            ContentType::TextPlain => "text/plain",
            ContentType::ApplicationJson => "application/json",
        }
    }
}

/// A blob to store: overwriting is allowed, and storing the same blob twice
/// changes nothing.
#[derive(Debug)]
pub struct BlobPut {
    pub path: String,
    pub content: Vec<u8>,
    pub content_type: ContentType,
}

/// The directory of a data source.
pub open spec fn data_source_prefix_of(project_id: i64, internal_id: Seq<char>) -> Seq<char> {
    signed_decimal_of(project_id as int) + "/"@ + internal_id
}

/// The blob that records when the data source was created.
pub open spec fn created_path_of(project_id: i64, internal_id: Seq<char>) -> Seq<char> {
    data_source_prefix_of(project_id, internal_id) + "/created.txt"@
}

/// The directory of a document.
pub open spec fn document_prefix_of(
    project_id: i64,
    internal_id: Seq<char>,
    document_id_hash: Seq<char>,
) -> Seq<char> {
    data_source_prefix_of(project_id, internal_id) + "/"@ + document_id_hash
}

/// The blob that holds the id of a document.
pub open spec fn document_id_path_of(
    project_id: i64,
    internal_id: Seq<char>,
    document_id_hash: Seq<char>,
) -> Seq<char> {
    document_prefix_of(project_id, internal_id, document_id_hash) + "/document_id.txt"@
}

/// The directory of a version of a document.
pub open spec fn version_prefix_of(
    project_id: i64,
    internal_id: Seq<char>,
    document_id_hash: Seq<char>,
    document_hash: Seq<char>,
) -> Seq<char> {
    document_prefix_of(project_id, internal_id, document_id_hash) + "/"@ + document_hash
}

/// The blob that holds the text of a version.
pub open spec fn content_path_of(
    project_id: i64,
    internal_id: Seq<char>,
    document_id_hash: Seq<char>,
    document_hash: Seq<char>,
) -> Seq<char> {
    version_prefix_of(project_id, internal_id, document_id_hash, document_hash) + "/content.txt"@
}

/// The blob that holds the tags of a version.
pub open spec fn tags_path_of(
    project_id: i64,
    internal_id: Seq<char>,
    document_id_hash: Seq<char>,
    document_hash: Seq<char>,
) -> Seq<char> {
    version_prefix_of(project_id, internal_id, document_id_hash, document_hash) + "/tags.json"@
}

/// The blob that holds the timestamp of a version.
pub open spec fn timestamp_path_of(
    project_id: i64,
    internal_id: Seq<char>,
    document_id_hash: Seq<char>,
    document_hash: Seq<char>,
) -> Seq<char> {
    version_prefix_of(project_id, internal_id, document_id_hash, document_hash)
        + "/timestamp.txt"@
}

/// The directory of a data source.
pub fn data_source_prefix(project_id: i64, internal_id: &str) -> (path: String)
    ensures
        path@ == data_source_prefix_of(project_id, internal_id@),
{
    let mut path = String::new();
    push_signed_decimal(&mut path, project_id);
    path.append("/");
    path.append(internal_id);
    assert(path@ =~= data_source_prefix_of(project_id, internal_id@));
    path
}

/// The blob that records when the data source was created.
pub fn created_path(project_id: i64, internal_id: &str) -> (path: String)
    ensures
        path@ == created_path_of(project_id, internal_id@),
{
    let mut path = data_source_prefix(project_id, internal_id);
    path.append("/created.txt");
    path
}

/// The directory of a document.
pub fn document_prefix(project_id: i64, internal_id: &str, document_id_hash: &str) -> (path: String)
    ensures
        path@ == document_prefix_of(project_id, internal_id@, document_id_hash@),
{
    let mut path = data_source_prefix(project_id, internal_id);
    path.append("/");
    path.append(document_id_hash);
    path
}

/// The blob that holds the id of a document.
pub fn document_id_path(project_id: i64, internal_id: &str, document_id_hash: &str) -> (path:
    String)
    ensures
        path@ == document_id_path_of(project_id, internal_id@, document_id_hash@),
{
    let mut path = document_prefix(project_id, internal_id, document_id_hash);
    path.append("/document_id.txt");
    path
}

/// The directory of a version of a document.
pub fn version_prefix(
    project_id: i64,
    internal_id: &str,
    document_id_hash: &str,
    document_hash: &str,
) -> (path: String)
    ensures
        path@ == version_prefix_of(project_id, internal_id@, document_id_hash@, document_hash@),
{
    let mut path = document_prefix(project_id, internal_id, document_id_hash);
    path.append("/");
    path.append(document_hash);
    path
}

/// The blob that holds the text of a version.
pub fn content_path(
    project_id: i64,
    internal_id: &str,
    document_id_hash: &str,
    document_hash: &str,
) -> (path: String)
    ensures
        path@ == content_path_of(project_id, internal_id@, document_id_hash@, document_hash@),
{
    let mut path = version_prefix(project_id, internal_id, document_id_hash, document_hash);
    path.append("/content.txt");
    path
}

/// The blob that holds the tags of a version.
pub fn tags_path(
    project_id: i64,
    internal_id: &str,
    document_id_hash: &str,
    document_hash: &str,
) -> (path: String)
    ensures
        path@ == tags_path_of(project_id, internal_id@, document_id_hash@, document_hash@),
{
    let mut path = version_prefix(project_id, internal_id, document_id_hash, document_hash);
    path.append("/tags.json");
    path
}

/// The blob that holds the timestamp of a version.
pub fn timestamp_path(
    project_id: i64,
    internal_id: &str,
    document_id_hash: &str,
    document_hash: &str,
) -> (path: String)
    ensures
        path@ == timestamp_path_of(project_id, internal_id@, document_id_hash@, document_hash@),
{
    let mut path = version_prefix(project_id, internal_id, document_id_hash, document_hash);
    path.append("/timestamp.txt");
    path
}

} // verus!
