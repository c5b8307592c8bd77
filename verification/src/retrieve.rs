//! Reading a document back: its row from the metadata store, its text from
//! the archive.

use crate::blob::{content_path, content_path_of};
use crate::data_source::DataSource;
use crate::document::Document;
use crate::error::Error;
use crate::fingerprint::{document_id_hash, document_id_hash_of};
use crate::tags::{remove_system_tags, user_tags_of};
use crate::text::texts;
use vstd::prelude::*;
use vstd::utf8::{decode_utf8, encode_utf8, valid_utf8};

verus! {

/// Calls `String::from_utf8` on the bytes. The contract says what the
/// documentation of the standard library says: the call succeeds exactly on
/// well-formed UTF-8, and the string is made of the bytes that were given.
#[verifier::external_body]
fn text_from_utf8(bytes: Vec<u8>) -> (text: Option<String>)
    ensures
        text is Some <==> valid_utf8(bytes@),
        text matches Some(s) ==> encode_utf8(s@) == bytes@,
{
    match String::from_utf8(bytes) {
        Ok(text) => Some(text),
        Err(_) => None,
    }
}

/// The text that a content blob holds. Fails where the blob is not
/// well-formed UTF-8.
pub fn read_content(content: Vec<u8>) -> (r: Result<String, Error>)
    ensures
        r is Ok <==> valid_utf8(content@),
        r matches Ok(text) ==> encode_utf8(text@) == content@ && text@ == decode_utf8(content@),
        r matches Err(e) ==> e is ContentNotText,
{
    let ghost bytes = content@;
    match text_from_utf8(content) {
        Some(text) => {
            proof {
                vstd::utf8::encode_utf8_decode_utf8(text@);
            }
            Ok(text)
        },
        None => Err(Error::ContentNotText),
    }
}

/// What was archived as the text of a version reads back as that text,
/// character by character.
pub proof fn lemma_content_reads_back(text: Seq<char>)
    ensures
        valid_utf8(encode_utf8(text)),
        decode_utf8(encode_utf8(text)) == text,
{
    vstd::utf8::encode_utf8_valid_utf8(text);
    vstd::utf8::encode_utf8_decode_utf8(text);
}

/// The tags of a document as they are shown.
pub open spec fn shown_tags_of(
    tags: Seq<Seq<char>>,
    remove_system_tags: bool,
    prefix: Seq<char>,
) -> Seq<Seq<char>> {
    if remove_system_tags {
        user_tags_of(tags, prefix)
    } else {
        tags
    }
}

impl DataSource {
    /// Where the text of the version that `document` describes is archived.
    pub fn content_location(&self, document: &Document) -> (path: String)
        ensures
            path@ == content_path_of(
                self@.project.project_id,
                self@.internal_id,
                document_id_hash_of(document.document_id@),
                document.hash@,
            ),
    {
        let id_hash = document_id_hash(document.document_id.as_str());
        content_path(
            self.project().project_id(),
            self.internal_id(),
            id_hash.as_str(),
            document.hash.as_str(),
        )
    }
}

/// A document with its text, as the archive holds it.
pub fn with_text(document: Document, content: Vec<u8>) -> (r: Result<Document, Error>)
    ensures
        r is Ok <==> valid_utf8(content@),
        r matches Err(e) ==> e is ContentNotText,
        r matches Ok(d) ==> d.text matches Some(text) && text@ == decode_utf8(content@)
            && d.data_source_id@ == document.data_source_id@ && d.created == document.created
            && d.document_id@ == document.document_id@ && d.timestamp == document.timestamp
            && d.tags@ == document.tags@ && d.source_url == document.source_url && d.hash@
            == document.hash@ && d.text_size == document.text_size && d.chunk_count
            == document.chunk_count && d.chunks@ == document.chunks@ && d.token_count
            == document.token_count,
{
    match read_content(content) {
        Ok(text) => {
            let mut d = document;
            d.text = Some(text);
            Ok(d)
        },
        Err(e) => Err(e),
    }
}

/// `d` is what a retrieval returns for `row` and the content of its
/// version: the row as the store holds it, without its system tags where
/// that is asked for, and with its text as the archive holds it.
pub open spec fn is_retrieved(
    d: Document,
    row: Document,
    content: Seq<u8>,
    remove_system_tags: bool,
    prefix: Seq<char>,
) -> bool {
    &&& d.text matches Some(text) && text@ == decode_utf8(content)
    &&& texts(d.tags@) == shown_tags_of(texts(row.tags@), remove_system_tags, prefix)
    &&& d.data_source_id@ == row.data_source_id@
    &&& d.created == row.created
    &&& d.document_id@ == row.document_id@
    &&& d.timestamp == row.timestamp
    &&& d.source_url == row.source_url
    &&& d.hash@ == row.hash@
    &&& d.text_size == row.text_size
    &&& d.chunk_count == row.chunk_count
    &&& d.chunks@ == row.chunks@
    &&& d.token_count == row.token_count
}

/// The document that a retrieval returns for a row of the store and the
/// content of its version; see `is_retrieved`. Fails where the content is
/// no text.
pub fn retrieved(
    row: Document,
    content: Vec<u8>,
    remove_system_tags: bool,
    prefix: &str,
) -> (r: Result<Document, Error>)
    ensures
        r is Ok <==> valid_utf8(content@),
        r matches Err(e) ==> e is ContentNotText,
        r matches Ok(d) ==> is_retrieved(d, row, content@, remove_system_tags, prefix@),
{
    let mut d = row;
    if remove_system_tags {
        d.tags = crate::tags::remove_system_tags(&d.tags, prefix);
    }
    with_text(d, content)
}

/// What a retrieval returns for what the store holds: nothing where the
/// store holds no row of the document, as after its deletion, and else the
/// row with its text; see `retrieved`. `content` is the content of the
/// row's version, and is not looked at where there is no row.
pub fn retrieval(
    row: Option<Document>,
    content: Vec<u8>,
    remove_system_tags: bool,
    prefix: &str,
) -> (r: Result<Option<Document>, Error>)
    ensures
        row is None ==> r matches Ok(None),
        row matches Some(held) ==> {
            &&& r is Ok <==> valid_utf8(content@)
            &&& r matches Err(e) ==> e is ContentNotText
            &&& r matches Ok(found) ==> found matches Some(d) && is_retrieved(
                d,
                held,
                content@,
                remove_system_tags,
                prefix@,
            )
        },
{
    match row {
        None => Ok(None),
        Some(held) => match retrieved(held, content, remove_system_tags, prefix) {
            Ok(d) => Ok(Some(d)),
            Err(e) => Err(e),
        },
    }
}

} // verus!
