use data_source::fingerprint::{chunk_hash, document_hash, document_id_hash};

fn hex(parts: &[&[u8]]) -> String {
    let mut hasher = blake3::Hasher::new();
    for part in parts {
        hasher.update(part);
    }
    format!("{}", hasher.finalize().to_hex())
}

#[test]
fn hash_of_the_empty_id_is_the_hash_of_no_bytes() {
    assert_eq!(
        document_id_hash(""),
        "af1349b9f5f9a1a6a0404dea36dcc9499bcb25c9adc112b7cc9a93cae41f3262"
    );
}

#[test]
fn id_hash_is_the_blake3_hash_of_the_id() {
    assert_eq!(document_id_hash("doc-1"), hex(&[b"doc-1"]));
    assert_ne!(document_id_hash("doc-1"), "doc-1");
    assert_eq!(document_id_hash("doc-1").len(), 64);
    assert_ne!(document_id_hash("doc-1"), document_id_hash("doc-2"));
}

#[test]
fn document_hash_covers_id_text_timestamp_and_tags_in_order() {
    let tags = vec!["a".to_string(), "bc".to_string()];
    assert_eq!(
        document_hash("doc", "hello world", 1700000000123, &tags),
        hex(&[b"doc", b"hello world", b"1700000000123", b"a", b"bc"])
    );
    assert_eq!(
        document_hash("doc", "héllo ✓", 0, &vec![]),
        hex(&[b"doc", "héllo ✓".as_bytes(), b"0"])
    );
}

#[test]
fn equal_inputs_have_equal_document_hashes() {
    let tags = vec!["x".to_string(), "y".to_string()];
    let again = vec!["x".to_string(), "y".to_string()];
    assert_eq!(
        document_hash("id", "text", 42, &tags),
        document_hash("id", "text", 42, &again)
    );
}

#[test]
fn document_hash_changes_with_each_part() {
    let tags = vec!["x".to_string(), "y".to_string()];
    let swapped = vec!["y".to_string(), "x".to_string()];
    let base = document_hash("id", "text", 42, &tags);
    assert_ne!(base, document_hash("id2", "text", 42, &tags));
    assert_ne!(base, document_hash("id", "text!", 42, &tags));
    assert_ne!(base, document_hash("id", "text", 43, &tags));
    assert_ne!(base, document_hash("id", "text", 42, &swapped));
}

#[test]
fn chunk_hash_covers_the_document_hash_and_the_chunk() {
    let parent = document_hash("id", "one two", 7, &vec![]);
    assert_eq!(chunk_hash(&parent, "one"), hex(&[parent.as_bytes(), b"one"]));
    assert_ne!(chunk_hash(&parent, "one"), chunk_hash(&parent, "two"));
}
