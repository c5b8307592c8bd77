use data_source::blob::{
    content_path, created_path, data_source_prefix, document_id_path, document_prefix, tags_path,
    timestamp_path, version_prefix, ContentType,
};
use data_source::data_source::{DataSource, DataSourceConfig, Project};
use data_source::document::Document;
use data_source::error::{Error, ErrorKind};
use data_source::fingerprint::{chunk_hash, document_hash, document_id_hash};
use data_source::index::{
    field_indexes, Condition, Distance, FieldIndexKind, PayloadField, HNSW_M, MEMMAP_THRESHOLD,
};
use data_source::upsert::{
    check_supplied_tags, numbered_chunks, version_tags, UpsertFailure, UpsertStage,
    MAX_EMBEDDINGS_IN_FLIGHT,
};

fn strings(items: &[&str]) -> Vec<String> {
    items.iter().map(|s| s.to_string()).collect()
}

fn config(max_chunk_size: usize) -> DataSourceConfig {
    DataSourceConfig {
        provider_id: "openai".to_string(),
        model_id: "text-embedding-ada-002".to_string(),
        extras: None,
        splitter_id: "base_v0".to_string(),
        max_chunk_size,
        use_cache: false,
    }
}

fn source(max_chunk_size: usize) -> DataSource {
    DataSource::new_from_store(
        &Project::new_from_id(1),
        1690000000000,
        "notes",
        "abc123",
        &config(max_chunk_size),
    )
}

#[test]
fn blob_paths_follow_the_layout() {
    assert_eq!(data_source_prefix(1, "abc123"), "1/abc123");
    assert_eq!(data_source_prefix(-4, "i"), "-4/i");
    assert_eq!(created_path(1, "abc123"), "1/abc123/created.txt");
    assert_eq!(document_prefix(1, "abc123", "dh"), "1/abc123/dh");
    assert_eq!(document_id_path(1, "abc123", "dh"), "1/abc123/dh/document_id.txt");
    assert_eq!(version_prefix(1, "abc123", "dh", "vh"), "1/abc123/dh/vh");
    assert_eq!(content_path(1, "abc123", "dh", "vh"), "1/abc123/dh/vh/content.txt");
    assert_eq!(tags_path(1, "abc123", "dh", "vh"), "1/abc123/dh/vh/tags.json");
    assert_eq!(timestamp_path(1, "abc123", "dh", "vh"), "1/abc123/dh/vh/timestamp.txt");
}

#[test]
fn content_types_have_their_names() {
    assert_eq!(ContentType::TextPlain.name(), "text/plain");
    assert_eq!(ContentType::ApplicationJson.name(), "application/json");
}

#[test]
fn data_source_from_the_store_keeps_its_values() {
    let ds = source(256);
    assert_eq!(ds.project().project_id(), 1);
    assert_eq!(ds.created(), 1690000000000);
    assert_eq!(ds.data_source_id(), "notes");
    assert_eq!(ds.internal_id(), "abc123");
    assert_eq!(ds.config().max_chunk_size, 256);
    assert_eq!(ds.config().model_id, "text-embedding-ada-002");
    assert_eq!(ds.collection_name(), "ds_abc123");
}

fn is_random_uuid(id: &str) -> bool {
    let chars: Vec<char> = id.chars().collect();
    chars.len() == 36
        && chars.iter().enumerate().all(|(i, c)| match i {
            8 | 13 | 18 | 23 => *c == '-',
            _ => ('0'..='9').contains(c) || ('a'..='f').contains(c),
        })
        && chars[14] == '4'
        && ['8', '9', 'a', 'b'].contains(&chars[19])
}

#[test]
fn internal_id_of_a_new_data_source_is_a_random_uuid() {
    for _ in 0..200 {
        let ds = DataSource::new(&Project::new_from_id(7), "notes", &config(64), 5);
        assert!(is_random_uuid(ds.internal_id()), "{}", ds.internal_id());
        assert_eq!(ds.collection_name(), format!("ds_{}", ds.internal_id()));
    }
}

#[test]
fn point_ids_are_random_uuids() {
    let ds = source(256);
    let d = ds.new_version("doc-1", Some(1), 2, &vec![], &None, "t");
    let pieces: Vec<String> = (0..64).map(|i| format!("piece {}", i)).collect();
    let d = ds.with_chunks(d, pieces);
    let points = ds.points(&d);
    assert_eq!(points.len(), 64);
    for (i, point) in points.iter().enumerate() {
        assert!(is_random_uuid(&point.id), "{}", point.id);
        assert_eq!(point.chunk_offset, i);
        assert!(points.iter().filter(|p| p.id == point.id).count() == 1);
    }
}

#[test]
fn tags_with_anything_in_them_are_written_as_json() {
    let ds = source(256);
    let tags =
        strings(&["", "a\\b", "line\nbreak", "tab\there", "\u{1}", "ünï", "\"", "\u{1F600}"]);
    let d = ds.new_version("doc-1", Some(1), 2, &tags, &None, "t");
    let blobs = ds.archive_plan(&d, "t");
    assert_eq!(
        String::from_utf8(blobs[2].content.clone()).unwrap(),
        r#"["","a\\b","line\nbreak","tab\there","\u0001","ünï","\"","😀"]"#
    );
    let none = ds.new_version("doc-1", Some(1), 2, &vec![], &None, "t");
    assert_eq!(ds.archive_plan(&none, "t")[2].content, b"[]".to_vec());
}

#[test]
fn pieces_become_chunks_in_reading_order() {
    let chunks = numbered_chunks("vh", strings(&["one", "two", "", "four"]));
    let read: Vec<(usize, &str)> = chunks.iter().map(|c| (c.offset, c.text.as_str())).collect();
    assert_eq!(read, vec![(0, "one"), (1, "two"), (2, ""), (3, "four")]);
    for chunk in chunks.iter() {
        assert_eq!(chunk.hash, chunk_hash("vh", &chunk.text));
        assert_eq!(chunk.score, None);
    }
    assert!(numbered_chunks("vh", vec![]).is_empty());
}

#[test]
fn chunk_offsets_and_point_offsets_are_the_numbers_below_the_count() {
    let ds = source(1);
    for n in [0usize, 1, 2, 17] {
        let d = ds.new_version("doc-1", Some(1), 2, &vec![], &None, "t");
        let d = ds.with_chunks(d, (0..n).map(|i| format!("p{}", i)).collect());
        assert_eq!(d.chunk_count, n);
        assert_eq!(d.chunks.len(), n);
        let mut offsets: Vec<usize> = d.chunks.iter().map(|c| c.offset).collect();
        offsets.sort();
        assert_eq!(offsets, (0..n).collect::<Vec<usize>>());
        let mut carried: Vec<i64> =
            ds.points(&d).iter().map(|p| p.payload.chunk_offset).collect();
        carried.sort();
        assert_eq!(carried, (0..n as i64).collect::<Vec<i64>>());
    }
}

#[test]
fn new_data_sources_get_internal_ids_of_their_own() {
    let project = Project::new_from_id(7);
    let a = DataSource::new(&project, "notes", &config(64), 5);
    let b = DataSource::new(&project, "notes", &config(64), 5);
    assert_eq!(a.data_source_id(), "notes");
    assert_eq!(a.created(), 5);
    assert_eq!(a.project().project_id(), 7);
    assert_eq!(a.config().max_chunk_size, 64);
    assert!(!a.internal_id().is_empty());
    assert_ne!(a.internal_id(), b.internal_id());
    assert_ne!(a.internal_id(), "notes");
}

#[test]
fn configuration_is_copied_whole() {
    let mut first = config(99);
    first.extras = Some("{\"k\":1}".to_string());
    first.use_cache = true;
    let copy = first.clone();
    assert_eq!(copy.provider_id, "openai");
    assert_eq!(copy.model_id, "text-embedding-ada-002");
    assert_eq!(copy.extras, Some("{\"k\":1}".to_string()));
    assert_eq!(copy.splitter_id, "base_v0");
    assert_eq!(copy.max_chunk_size, 99);
    assert!(copy.use_cache);
}

#[test]
fn setup_records_creation_then_creates_collection_and_indexes() {
    let plan = source(256).setup_plan(1536);
    assert_eq!(plan.created.path, "1/abc123/created.txt");
    assert_eq!(plan.created.content, b"1690000000000".to_vec());
    assert_eq!(plan.created.content_type, ContentType::TextPlain);
    assert_eq!(plan.collection.name, "ds_abc123");
    assert_eq!(plan.collection.vector_size, 1536);
    assert_eq!(plan.collection.distance, Distance::Cosine);
    assert_eq!(plan.collection.hnsw_m, 16);
    assert_eq!(plan.collection.hnsw_m, HNSW_M);
    assert_eq!(plan.collection.memmap_threshold, 1024);
    assert_eq!(plan.collection.memmap_threshold, MEMMAP_THRESHOLD);
    assert!(plan.collection.on_disk_payload);
    let indexes: Vec<(&str, FieldIndexKind)> =
        plan.indexes.iter().map(|i| (i.field.name(), i.kind)).collect();
    assert_eq!(
        indexes,
        vec![
            ("document_id_hash", FieldIndexKind::Keyword),
            ("tags", FieldIndexKind::Keyword),
            ("timestamp", FieldIndexKind::Integer),
        ]
    );
    assert_eq!(field_indexes(), plan.indexes);
}

#[test]
fn payload_fields_have_their_keys() {
    assert_eq!(PayloadField::Tags.name(), "tags");
    assert_eq!(PayloadField::Timestamp.name(), "timestamp");
    assert_eq!(PayloadField::ChunkOffset.name(), "chunk_offset");
    assert_eq!(PayloadField::ChunkHash.name(), "chunk_hash");
    assert_eq!(PayloadField::DataSourceId.name(), "data_source_id");
    assert_eq!(PayloadField::DataSourceInternalId.name(), "data_source_internal_id");
    assert_eq!(PayloadField::DocumentId.name(), "document_id");
    assert_eq!(PayloadField::DocumentIdHash.name(), "document_id_hash");
    assert_eq!(PayloadField::Text.name(), "text");
}

#[test]
fn tag_update_carries_the_returned_tags_to_the_points_of_the_document() {
    let update = source(8).tags_update("doc-1".to_string(), strings(&["x", "z"]));
    assert_eq!(update.tags, strings(&["x", "z"]));
    assert!(update.tags.contains(&"x".to_string()));
    assert!(!update.tags.contains(&"y".to_string()));
    assert!(update.filter.must_not.is_empty());
    assert_eq!(update.filter.must.len(), 1);
    match &update.filter.must[0] {
        Condition::Keyword { field, value } => {
            assert_eq!(*field, PayloadField::DocumentId);
            assert_eq!(value, "doc-1");
        }
        other => panic!("unexpected condition {:?}", other),
    }
}

#[test]
fn points_of_a_document_are_selected_by_the_hash_of_its_id() {
    let filter = source(8).document_points("doc-1");
    assert!(filter.must_not.is_empty());
    assert_eq!(filter.must.len(), 1);
    match &filter.must[0] {
        Condition::Keyword { field, value } => {
            assert_eq!(*field, PayloadField::DocumentIdHash);
            assert_eq!(*value, document_id_hash("doc-1"));
        }
        other => panic!("unexpected condition {:?}", other),
    }
}

#[test]
fn supplied_system_tags_are_refused_when_system_tags_are_kept() {
    let tags = strings(&["a", "sys:owner=me"]);
    match check_supplied_tags(&tags, true, "sys:") {
        Err(e) => {
            assert_eq!(e.kind(), ErrorKind::InvalidArgument);
            assert_eq!(
                e.message(),
                "preserve_system_tags=true is not allowed if `tags` contains a string starting with \"sys:\""
            );
        }
        Ok(()) => panic!("a supplied system tag was accepted"),
    }
    assert!(check_supplied_tags(&tags, false, "sys:").is_ok());
    assert!(check_supplied_tags(&strings(&["a", "b"]), true, "sys:").is_ok());
    assert!(check_supplied_tags(&vec![], true, "sys:").is_ok());
}

#[test]
fn system_tags_of_the_current_version_are_kept_on_request() {
    let current = strings(&["old", "sys:owner=x"]);
    assert_eq!(
        version_tags(&strings(&["a"]), &current, true, "sys:").unwrap(),
        strings(&["a", "sys:owner=x"])
    );
    assert_eq!(
        version_tags(&strings(&["a"]), &current, false, "sys:").unwrap(),
        strings(&["a"])
    );
    assert_eq!(
        version_tags(&strings(&["a"]), &vec![], true, "sys:").unwrap(),
        strings(&["a"])
    );
    assert!(matches!(
        version_tags(&strings(&["sys:x"]), &current, true, "sys:"),
        Err(Error::SystemTagSupplied { .. })
    ));
    assert_eq!(
        version_tags(&strings(&["sys:x"]), &current, false, "sys:").unwrap(),
        strings(&["sys:x"])
    );
}

#[test]
fn document_without_chunks_is_built_from_its_parts() {
    let d = Document::new(
        "notes",
        "doc-1",
        12,
        &strings(&["a"]),
        &Some("https://example.com".to_string()),
        "hash",
        5,
        99,
    )
    .unwrap();
    assert_eq!(d.data_source_id, "notes");
    assert_eq!(d.created, 99);
    assert_eq!(d.document_id, "doc-1");
    assert_eq!(d.timestamp, 12);
    assert_eq!(d.tags, strings(&["a"]));
    assert_eq!(d.source_url, Some("https://example.com".to_string()));
    assert_eq!(d.hash, "hash");
    assert_eq!(d.text_size, 5);
    assert_eq!(d.chunk_count, 0);
    assert!(d.chunks.is_empty());
    assert_eq!(d.text, None);
    assert_eq!(d.token_count, None);
}

#[test]
fn new_version_is_fingerprinted_and_sized() {
    let ds = source(256);
    let tags = strings(&["a", "sys:owner=x"]);
    let d = ds.new_version("doc-1", Some(1234), 5678, &tags, &None, "héllo");
    assert_eq!(d.data_source_id, "notes");
    assert_eq!(d.document_id, "doc-1");
    assert_eq!(d.timestamp, 1234);
    assert_eq!(d.created, 5678);
    assert_eq!(d.tags, tags);
    assert_eq!(d.source_url, None);
    assert_eq!(d.hash, document_hash("doc-1", "héllo", 1234, &tags));
    assert_eq!(d.text_size, 6);
    assert_eq!(d.chunk_count, 0);
    assert!(d.chunks.is_empty());
    assert_eq!(d.text, None);
    assert_eq!(d.token_count, None);
}

#[test]
fn time_of_the_upsert_stands_in_for_a_missing_timestamp() {
    let ds = source(256);
    let d = ds.new_version("doc-1", None, 5678, &vec![], &None, "text");
    assert_eq!(d.timestamp, 5678);
    assert_eq!(d.hash, document_hash("doc-1", "text", 5678, &vec![]));
}

#[test]
fn archive_holds_id_text_tags_and_timestamp() {
    let ds = source(256);
    let tags = strings(&["a", "quo\"te"]);
    let d = ds.new_version("doc-1", Some(1234), 5678, &tags, &None, "some text");
    let blobs = ds.archive_plan(&d, "some text");
    let id_hash = document_id_hash("doc-1");
    let base = format!("1/abc123/{}", id_hash);
    assert_eq!(blobs.len(), 4);
    assert_eq!(blobs[0].path, format!("{}/document_id.txt", base));
    assert_eq!(blobs[0].content, b"doc-1".to_vec());
    assert_eq!(blobs[0].content_type, ContentType::TextPlain);
    assert_eq!(blobs[1].path, format!("{}/{}/content.txt", base, d.hash));
    assert_eq!(blobs[1].content, b"some text".to_vec());
    assert_eq!(blobs[1].content_type, ContentType::TextPlain);
    assert_eq!(blobs[2].path, format!("{}/{}/tags.json", base, d.hash));
    assert_eq!(blobs[2].content, b"[\"a\",\"quo\\\"te\"]".to_vec());
    assert_eq!(blobs[2].content_type, ContentType::ApplicationJson);
    assert_eq!(blobs[3].path, format!("{}/{}/timestamp.txt", base, d.hash));
    assert_eq!(blobs[3].content, b"1234".to_vec());
    assert_eq!(blobs[3].content_type, ContentType::TextPlain);
}

#[test]
fn archive_takes_the_tags_as_they_are_handed_in() {
    let ds = source(256);
    let d = ds.new_version("doc-1", Some(1), 2, &vec![], &None, "t");
    let blobs = ds.archive_blobs(&d, "t", "[]");
    assert_eq!(blobs.len(), 4);
    assert_eq!(blobs[2].content, b"[]".to_vec());
    assert_eq!(blobs[1].content, b"t".to_vec());
}

#[test]
fn chunks_are_numbered_from_zero_and_fingerprinted() {
    let ds = source(256);
    let d = ds.new_version("doc-1", Some(1234), 5678, &strings(&["a"]), &None, "one two three");
    let hash = d.hash.clone();
    let d = ds.with_chunks(d, strings(&["one", "two", "three"]));
    assert_eq!(d.chunk_count, 3);
    assert_eq!(d.token_count, Some(768));
    assert_eq!(d.hash, hash);
    assert_eq!(d.document_id, "doc-1");
    assert_eq!(d.tags, strings(&["a"]));
    let offsets: Vec<usize> = d.chunks.iter().map(|c| c.offset).collect();
    assert_eq!(offsets, vec![0, 1, 2]);
    let texts: Vec<&str> = d.chunks.iter().map(|c| c.text.as_str()).collect();
    assert_eq!(texts, vec!["one", "two", "three"]);
    for chunk in d.chunks.iter() {
        assert_eq!(chunk.hash, chunk_hash(&hash, &chunk.text));
        assert_eq!(chunk.score, None);
    }
}

#[test]
fn document_without_pieces_has_no_chunks_and_no_tokens() {
    let ds = source(256);
    let d = ds.new_version("doc-1", Some(1), 2, &vec![], &None, "");
    let d = ds.with_chunks(d, vec![]);
    assert_eq!(d.chunk_count, 0);
    assert!(d.chunks.is_empty());
    assert_eq!(d.token_count, Some(0));
    assert!(ds.points(&d).is_empty());
}

#[test]
fn every_chunk_has_a_point_with_the_full_payload() {
    let ds = source(256);
    let tags = strings(&["a", "sys:owner=x"]);
    let d = ds.new_version("doc-1", Some(1234), 5678, &tags, &None, "one two");
    let d = ds.with_chunks(d, strings(&["one", "two"]));
    let points = ds.points(&d);
    assert_eq!(points.len(), 2);
    assert_ne!(points[0].id, points[1].id);
    for (i, point) in points.iter().enumerate() {
        assert_eq!(point.id.len(), 36);
        assert_eq!(point.chunk_offset, i);
        assert_eq!(point.payload.tags, tags);
        assert_eq!(point.payload.timestamp, 1234);
        assert_eq!(point.payload.chunk_offset, i as i64);
        assert_eq!(point.payload.chunk_hash, d.chunks[i].hash);
        assert_eq!(point.payload.data_source_id, "notes");
        assert_eq!(point.payload.data_source_internal_id, "abc123");
        assert_eq!(point.payload.document_id, "doc-1");
        assert_eq!(point.payload.document_id_hash, document_id_hash("doc-1"));
        assert_eq!(point.payload.text, d.chunks[i].text);
    }
}

#[test]
fn upsert_archives_then_replaces_points_then_commits() {
    let mut stage = UpsertStage::first();
    let mut seen = vec![stage];
    while stage != UpsertStage::Done {
        stage = stage.next(3);
        seen.push(stage);
    }
    assert_eq!(
        seen,
        vec![
            UpsertStage::Archive,
            UpsertStage::Split,
            UpsertStage::Embed,
            UpsertStage::DeletePoints,
            UpsertStage::InsertPoints,
            UpsertStage::Commit,
            UpsertStage::Done,
        ]
    );
    assert_eq!(UpsertStage::Done.next(3), UpsertStage::Done);
}

#[test]
fn document_without_chunks_skips_the_insertion() {
    assert_eq!(UpsertStage::DeletePoints.next(0), UpsertStage::Commit);
    assert_eq!(UpsertStage::DeletePoints.next(1), UpsertStage::InsertPoints);
    assert_eq!(UpsertStage::Embed.next(0), UpsertStage::DeletePoints);
}

#[test]
fn failed_upsert_leaves_a_known_state() {
    assert_eq!(UpsertStage::Archive.failure(), Some(UpsertFailure::Unchanged));
    assert_eq!(UpsertStage::Split.failure(), Some(UpsertFailure::Unchanged));
    assert_eq!(UpsertStage::Embed.failure(), Some(UpsertFailure::Unchanged));
    assert_eq!(UpsertStage::DeletePoints.failure(), Some(UpsertFailure::Unchanged));
    assert_eq!(UpsertStage::InsertPoints.failure(), Some(UpsertFailure::NoPoints));
    assert_eq!(UpsertStage::Commit.failure(), Some(UpsertFailure::RowBehind));
    assert_eq!(UpsertStage::Done.failure(), None);
}

#[test]
fn embeddings_in_flight_are_bounded() {
    assert_eq!(MAX_EMBEDDINGS_IN_FLIGHT, 24);
}
