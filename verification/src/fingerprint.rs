//! Fingerprints of documents and chunks.
//!
//! Every fingerprint is the BLAKE3 hash, in lowercase hexadecimal, of a byte
//! string that is put together from the parts in a fixed order. Equal parts
//! give equal fingerprints, on every machine.

use crate::text::{decimal, decimal_of, texts};
use vstd::prelude::*;
use vstd::utf8::encode_utf8;

verus! {

/// The BLAKE3 hash of `input`, written as lowercase hexadecimal digits.
pub uninterp spec fn blake3_hex(input: Seq<u8>) -> Seq<char>;

/// Calls `blake3::hash` on the input and writes the hash out with
/// `Hash::to_hex`. The contract gives the result its name, `blake3_hex`:
/// all that it claims is that the result depends on the bytes alone.
#[verifier::external_body]
fn hash_hex(input: &[u8]) -> (digest: String)
    ensures
        digest@ == blake3_hex(input@),
{
    blake3::hash(input).to_hex().to_string()
}

/// The UTF-8 bytes of the strings, one after the other.
pub open spec fn joined_bytes(parts: Seq<Seq<char>>) -> Seq<u8>
    decreases parts.len(),
{
    if parts.len() == 0 {
        Seq::empty()
    } else {
        joined_bytes(parts.drop_last()) + encode_utf8(parts.last())
    }
}

/// What is hashed for a document's identity: its id.
pub open spec fn document_id_hash_of(document_id: Seq<char>) -> Seq<char> {
    blake3_hex(encode_utf8(document_id))
}

/// What is hashed for a version of a document: the id, the text, the
/// timestamp in decimal, and the tags in their order.
pub open spec fn document_hash_input(
    document_id: Seq<char>,
    text: Seq<char>,
    timestamp: u64,
    tags: Seq<Seq<char>>,
) -> Seq<u8> {
    encode_utf8(document_id) + encode_utf8(text) + encode_utf8(decimal_of(timestamp as nat))
        + joined_bytes(tags)
}

/// The fingerprint of a version of a document.
pub open spec fn document_hash_of(
    document_id: Seq<char>,
    text: Seq<char>,
    timestamp: u64,
    tags: Seq<Seq<char>>,
) -> Seq<char> {
    blake3_hex(document_hash_input(document_id, text, timestamp, tags))
}

/// The fingerprint of a chunk: the document's fingerprint, then the chunk's text.
pub open spec fn chunk_hash_of(document_hash: Seq<char>, chunk_text: Seq<char>) -> Seq<char> {
    blake3_hex(encode_utf8(document_hash) + encode_utf8(chunk_text))
}

fn push_bytes(buffer: &mut Vec<u8>, bytes: &[u8])
    ensures
        final(buffer)@ == old(buffer)@ + bytes@,
{
    let mut i: usize = 0;
    while i < bytes.len()
        invariant
            i <= bytes.len(),
            buffer@ == old(buffer)@ + bytes@.subrange(0, i as int),
        decreases bytes.len() - i,
    {
        buffer.push(bytes[i]);
        assert(bytes@.subrange(0, i + 1) =~= bytes@.subrange(0, i as int).push(bytes@[i as int]));
        i = i + 1;
    }
    assert(bytes@.subrange(0, bytes.len() as int) =~= bytes@);
}

/// The fingerprint of a document's identity. It is the same for every
/// version of the document.
pub fn document_id_hash(document_id: &str) -> (hash: String)
    ensures
        hash@ == document_id_hash_of(document_id@),
{
    hash_hex(document_id.as_bytes())
}

/// The fingerprint of a version of a document.
pub fn document_hash(document_id: &str, text: &str, timestamp: u64, tags: &Vec<String>) -> (hash:
    String)
    ensures
        hash@ == document_hash_of(document_id@, text@, timestamp, texts(tags@)),
{
    let mut buffer: Vec<u8> = Vec::new();
    push_bytes(&mut buffer, document_id.as_bytes());
    push_bytes(&mut buffer, text.as_bytes());
    let stamp = decimal(timestamp);
    push_bytes(&mut buffer, stamp.as_str().as_bytes());
    let ghost head = buffer@;
    let mut i: usize = 0;
    assert(texts(tags@).subrange(0, 0) =~= Seq::<Seq<char>>::empty());
    while i < tags.len()
        invariant
            i <= tags.len(),
            buffer@ == head + joined_bytes(texts(tags@).subrange(0, i as int)),
        decreases tags.len() - i,
    {
        push_bytes(&mut buffer, tags[i].as_str().as_bytes());
        proof {
            let seen = texts(tags@).subrange(0, i + 1);
            assert(seen.drop_last() =~= texts(tags@).subrange(0, i as int));
            assert(seen.last() == tags@[i as int]@);
        }
        i = i + 1;
    }
    assert(texts(tags@).subrange(0, tags.len() as int) =~= texts(tags@));
    hash_hex(buffer.as_slice())
}

/// The fingerprint of a chunk of a version of a document.
pub fn chunk_hash(document_hash: &str, chunk_text: &str) -> (hash: String)
    ensures
        hash@ == chunk_hash_of(document_hash@, chunk_text@),
{
    let mut buffer: Vec<u8> = Vec::new();
    push_bytes(&mut buffer, document_hash.as_bytes());
    push_bytes(&mut buffer, chunk_text.as_bytes());
    hash_hex(buffer.as_slice())
}

/// Equal id, text, timestamp and tags, the tags in the same order, have the
/// same fingerprint.
pub proof fn lemma_document_hash_stable(
    id_a: Seq<char>,
    text_a: Seq<char>,
    timestamp_a: u64,
    tags_a: Seq<Seq<char>>,
    id_b: Seq<char>,
    text_b: Seq<char>,
    timestamp_b: u64,
    tags_b: Seq<Seq<char>>,
)
    requires
        id_a == id_b,
        text_a == text_b,
        timestamp_a == timestamp_b,
        tags_a == tags_b,
    ensures
        document_hash_of(id_a, text_a, timestamp_a, tags_a) == document_hash_of(
            id_b,
            text_b,
            timestamp_b,
            tags_b,
        ),
{
}

} // verus!
