// A data source with everything around it held in memory: a blob archive, a
// metadata store and a vector index that compares letter counts.

use data_source::data_source::{DataSource, DataSourceConfig, Project};
use data_source::document::Document;
use data_source::error::Error;
use data_source::expand::{
    apply_expansion, expansion_budget, is_expandable, plan_expansion, read_expansions,
    RetrievedPoint,
};
use data_source::filter::{SearchFilter, TagsFilter, TimestampFilter};
use data_source::index::{Condition, Filter, PayloadField, PointPayload};
use data_source::retrieve::{retrieval, with_text};
use data_source::search::{
    document_ids, loaded_document, order_documents, read_hits, with_hits, PayloadValue,
    ScoredPoint,
};
use data_source::upsert::{version_tags, UpsertFailure, UpsertStage};
use std::collections::HashMap;

const PREFIX: &str = "sys:";
const CHUNK_SIZE: usize = 4;

struct Stored {
    payload: PointPayload,
    vector: Vec<f64>,
}

struct World {
    ds: DataSource,
    blobs: HashMap<String, Vec<u8>>,
    rows: HashMap<String, Document>,
    points: Vec<Stored>,
    clock: u64,
    fail_at: Option<UpsertStage>,
}

fn strings(items: &[&str]) -> Vec<String> {
    items.iter().map(|s| s.to_string()).collect()
}

fn world() -> World {
    let config = DataSourceConfig {
        provider_id: "letters".to_string(),
        model_id: "histogram".to_string(),
        extras: None,
        splitter_id: "words".to_string(),
        max_chunk_size: CHUNK_SIZE,
        use_cache: false,
    };
    World {
        ds: DataSource::new(&Project::new_from_id(1), "notes", &config, 1000),
        blobs: HashMap::new(),
        rows: HashMap::new(),
        points: vec![],
        clock: 1000,
        fail_at: None,
    }
}

fn embed(text: &str) -> Vec<f64> {
    let mut counts = vec![0.0f64; 26];
    for c in text.chars() {
        if c.is_ascii_lowercase() {
            counts[(c as u8 - b'a') as usize] += 1.0;
        }
    }
    counts
}

fn cosine(a: &[f64], b: &[f64]) -> f64 {
    let dot: f64 = a.iter().zip(b.iter()).map(|(x, y)| x * y).sum();
    let norm_a: f64 = a.iter().map(|x| x * x).sum::<f64>().sqrt();
    let norm_b: f64 = b.iter().map(|x| x * x).sum::<f64>().sqrt();
    if norm_a == 0.0 || norm_b == 0.0 {
        0.0
    } else {
        dot / (norm_a * norm_b)
    }
}

fn score_key(score: f64) -> i64 {
    if score == 0.0 || score.is_nan() {
        return 0;
    }
    let bits = score.to_bits() as i64;
    bits ^ ((((bits >> 63) as u64) >> 1) as i64)
}

fn key_score(key: i64) -> f64 {
    let bits = key ^ ((((key >> 63) as u64) >> 1) as i64);
    f64::from_bits(bits as u64)
}

fn split(text: &str) -> Vec<String> {
    let words: Vec<&str> = text.split_whitespace().collect();
    words.chunks(CHUNK_SIZE).map(|w| w.join(" ")).collect()
}

fn keyword(payload: &PointPayload, field: &PayloadField) -> String {
    match field {
        PayloadField::ChunkHash => payload.chunk_hash.clone(),
        PayloadField::DataSourceId => payload.data_source_id.clone(),
        PayloadField::DataSourceInternalId => payload.data_source_internal_id.clone(),
        PayloadField::DocumentId => payload.document_id.clone(),
        PayloadField::DocumentIdHash => payload.document_id_hash.clone(),
        PayloadField::Text => payload.text.clone(),
        other => panic!("{} holds no keyword", other.name()),
    }
}

fn integer(payload: &PointPayload, field: &PayloadField) -> i64 {
    match field {
        PayloadField::Timestamp => payload.timestamp,
        PayloadField::ChunkOffset => payload.chunk_offset,
        other => panic!("{} holds no integer", other.name()),
    }
}

fn holds(condition: &Condition, payload: &PointPayload) -> bool {
    match condition {
        Condition::Keyword { field, value } => keyword(payload, field) == *value,
        Condition::AnyKeyword { field, values } => {
            assert_eq!(*field, PayloadField::Tags);
            payload.tags.iter().any(|t| values.contains(t))
        }
        Condition::AnyInteger { field, values } => values.contains(&integer(payload, field)),
        Condition::AtLeast { field, bound } => integer(payload, field) as f64 >= *bound as f64,
        Condition::AtMost { field, bound } => integer(payload, field) as f64 <= *bound as f64,
    }
}

fn passes(filter: &Filter, payload: &PointPayload) -> bool {
    filter.must.iter().all(|c| holds(c, payload))
        && !filter.must_not.iter().any(|c| holds(c, payload))
}

impl World {
    fn upsert(
        &mut self,
        document_id: &str,
        text: &str,
        tags: &[&str],
        timestamp: Option<u64>,
        preserve_system_tags: bool,
    ) -> Result<Document, Error> {
        let current = match self.rows.get(document_id) {
            Some(row) if preserve_system_tags => row.tags.clone(),
            _ => vec![],
        };
        let tags = version_tags(&strings(tags), &current, preserve_system_tags, PREFIX)?;
        self.clock += 1;
        let mut document =
            self.ds.new_version(document_id, timestamp, self.clock, &tags, &None, text);
        let mut pieces: Vec<String> = vec![];
        let mut vectors: Vec<Vec<f64>> = vec![];
        let mut stage = UpsertStage::first();
        while stage != UpsertStage::Done {
            if self.fail_at == Some(stage) {
                return Err(Error::DocumentNotFound);
            }
            match stage {
                UpsertStage::Archive => {
                    for blob in self.ds.archive_plan(&document, text) {
                        self.blobs.insert(blob.path, blob.content);
                    }
                }
                UpsertStage::Split => pieces = split(text),
                UpsertStage::Embed => {
                    vectors = pieces.iter().map(|p| embed(p)).collect();
                    document = self.ds.with_chunks(document, std::mem::take(&mut pieces));
                }
                UpsertStage::DeletePoints => {
                    let old = self.ds.document_points(document_id);
                    self.points.retain(|p| !passes(&old, &p.payload));
                }
                UpsertStage::InsertPoints => {
                    for point in self.ds.points(&document) {
                        let vector = vectors[point.chunk_offset].clone();
                        self.points.push(Stored { payload: point.payload, vector });
                    }
                }
                UpsertStage::Commit => {
                    self.rows.insert(document_id.to_string(), document.clone());
                }
                UpsertStage::Done => {}
            }
            stage = stage.next(document.chunk_count);
        }
        Ok(document)
    }

    fn search(
        &self,
        query: &str,
        top_k: usize,
        filter: Option<SearchFilter>,
        full_text: bool,
        target_document_tokens: Option<usize>,
    ) -> Result<Vec<Document>, Error> {
        let request = self.ds.search_request(top_k, &filter)?;
        assert_eq!(request.collection, self.ds.collection_name());
        let query = embed(query);
        let mut found: Vec<(f64, &Stored)> = self
            .points
            .iter()
            .filter(|p| request.filter.as_ref().map_or(true, |f| passes(f, &p.payload)))
            .map(|p| (cosine(&query, &p.vector), p))
            .collect();
        found.sort_by(|a, b| b.0.partial_cmp(&a.0).unwrap());
        found.truncate(request.limit as usize);
        let points: Vec<ScoredPoint> = found
            .iter()
            .map(|(score, p)| ScoredPoint {
                document_id: Some(PayloadValue::Text(p.payload.document_id.clone())),
                text: Some(PayloadValue::Text(p.payload.text.clone())),
                chunk_hash: Some(PayloadValue::Text(p.payload.chunk_hash.clone())),
                chunk_offset: Some(PayloadValue::Integer(p.payload.chunk_offset)),
                score: score_key(*score),
            })
            .collect();
        let hits = read_hits(&points)?;
        let mut documents = vec![];
        for id in document_ids(&hits) {
            let mut d = loaded_document(self.rows.get(&id).cloned())?;
            if full_text {
                let content = self.blobs[&self.ds.content_location(&d)].clone();
                d = with_text(d, content)?;
            }
            d = with_hits(d, &hits, CHUNK_SIZE);
            if let Some(target) = target_document_tokens {
                if expansion_budget(target, d.chunks.len(), CHUNK_SIZE) > 0 {
                    assert!(is_expandable(&d));
                }
                if let Some(request) = plan_expansion(&d, target, CHUNK_SIZE) {
                    let fetched: Vec<RetrievedPoint> = self
                        .points
                        .iter()
                        .rev()
                        .filter(|p| passes(&request.filter, &p.payload))
                        .take(request.limit as usize)
                        .map(|p| RetrievedPoint {
                            text: Some(PayloadValue::Text(p.payload.text.clone())),
                            chunk_offset: Some(PayloadValue::Integer(p.payload.chunk_offset)),
                        })
                        .collect();
                    d = apply_expansion(d, read_expansions(&fetched)?, &request.plan, CHUNK_SIZE);
                }
            }
            documents.push(d);
        }
        Ok(order_documents(documents))
    }

    fn retrieve(&self, document_id: &str, remove_system_tags: bool) -> Result<Option<Document>, Error> {
        let row = self.rows.get(document_id).cloned();
        let content = match &row {
            Some(held) => self.blobs[&self.ds.content_location(held)].clone(),
            None => vec![],
        };
        retrieval(row, content, remove_system_tags, PREFIX)
    }

    fn delete_document(&mut self, document_id: &str) {
        let points = self.ds.document_points(document_id);
        self.points.retain(|p| !passes(&points, &p.payload));
        self.rows.remove(document_id);
    }

    fn update_tags(&mut self, document_id: &str, add: &[&str], remove: &[&str]) -> Vec<String> {
        let row = self.rows.get_mut(document_id).unwrap();
        row.tags.retain(|t| !remove.contains(&t.as_str()));
        for tag in add {
            if !row.tags.iter().any(|t| t == tag) {
                row.tags.push(tag.to_string());
            }
        }
        let update = self.ds.tags_update(document_id.to_string(), row.tags.clone());
        for point in self.points.iter_mut() {
            if passes(&update.filter, &point.payload) {
                point.payload.tags = update.tags.clone();
            }
        }
        update.tags
    }

    fn points_of(&self, document_id: &str) -> Vec<&Stored> {
        self.points.iter().filter(|p| p.payload.document_id == document_id).collect()
    }
}

fn letters(letter: char) -> String {
    let word: String = std::iter::repeat(letter).take(3).collect();
    vec![word; CHUNK_SIZE].join(" ")
}

fn tagged(tags: &[&str]) -> Option<SearchFilter> {
    Some(SearchFilter {
        tags: Some(TagsFilter { is_in: Some(strings(tags)), is_not: None }),
        timestamp: None,
    })
}

#[test]
fn upserted_document_is_found_by_its_tag() {
    let mut w = world();
    let text = format!("{} {} {}", letters('a'), letters('b'), letters('c'));
    let d = w.upsert("doc", &text, &["a"], None, false).unwrap();
    assert_eq!(d.chunk_count, 3);
    assert_eq!(w.points_of("doc").len(), 3);
    let found = w.search("bbb", 3, tagged(&["a"]), false, None).unwrap();
    assert_eq!(found.len(), 1);
    assert_eq!(found[0].document_id, "doc");
    assert!(!found[0].chunks.is_empty());
    assert!(found[0].chunks.len() <= 3);
    assert_eq!(found[0].token_count, Some(found[0].chunks.len() * CHUNK_SIZE));
    for chunk in found[0].chunks.iter() {
        let score = key_score(chunk.score.unwrap());
        assert!((-1.0..=1.0).contains(&score));
    }
    assert_eq!(found[0].chunks[0].offset, 1);
    assert_eq!(found[0].chunks[0].text, letters('b'));
    assert!(w.search("bbb", 3, tagged(&["other"]), false, None).unwrap().is_empty());
}

#[test]
fn excluded_tag_keeps_a_document_out() {
    let mut w = world();
    w.upsert("first", &letters('a'), &["a"], None, false).unwrap();
    w.upsert("second", &letters('a'), &["b"], None, false).unwrap();
    let filter = SearchFilter {
        tags: Some(TagsFilter { is_in: None, is_not: Some(strings(&["b"])) }),
        timestamp: None,
    };
    let found = w.search("aaa", 10, Some(filter), false, None).unwrap();
    assert_eq!(found.len(), 1);
    assert_eq!(found[0].document_id, "first");
    assert_eq!(w.search("aaa", 10, None, false, None).unwrap().len(), 2);
}

#[test]
fn timestamps_on_the_bounds_pass() {
    let mut w = world();
    w.upsert("early", &letters('a'), &[], Some(100), false).unwrap();
    w.upsert("middle", &letters('a'), &[], Some(200), false).unwrap();
    w.upsert("late", &letters('a'), &[], Some(300), false).unwrap();
    let between = |gt, lt| {
        Some(SearchFilter { tags: None, timestamp: Some(TimestampFilter { gt, lt }) })
    };
    let ids = |found: Vec<Document>| {
        let mut ids: Vec<String> = found.into_iter().map(|d| d.document_id).collect();
        ids.sort();
        ids
    };
    assert_eq!(
        ids(w.search("aaa", 10, between(Some(200), None), false, None).unwrap()),
        strings(&["late", "middle"])
    );
    assert_eq!(
        ids(w.search("aaa", 10, between(None, Some(200)), false, None).unwrap()),
        strings(&["early", "middle"])
    );
    assert_eq!(
        ids(w.search("aaa", 10, between(Some(200), Some(200)), false, None).unwrap()),
        strings(&["middle"])
    );
    assert!(w.search("aaa", 10, between(Some(301), None), false, None).unwrap().is_empty());
}

#[test]
fn hit_grows_into_its_neighbourhood() {
    let mut w = world();
    let chunks: Vec<String> = "abcdefghij".chars().map(letters).collect();
    let d = w.upsert("doc", &chunks.join(" "), &[], None, false).unwrap();
    assert_eq!(d.chunk_count, 10);
    let found = w.search("fff", 1, None, false, Some(7 * CHUNK_SIZE)).unwrap();
    assert_eq!(found.len(), 1);
    assert_eq!(found[0].chunks.len(), 1);
    let hit = &found[0].chunks[0];
    assert_eq!(hit.offset, 5);
    assert_eq!(hit.text, chunks[2..9].join(" "));
    assert!(hit.text.starts_with(&format!("{} {} {} ", chunks[2], chunks[3], chunks[4])));
    assert!(hit.text.ends_with(&format!(" {} {} {}", chunks[6], chunks[7], chunks[8])));
    assert_eq!(found[0].token_count, Some(7 * CHUNK_SIZE));
}

#[test]
fn target_that_is_met_leaves_the_hits_as_they_are() {
    let mut w = world();
    let chunks: Vec<String> = "abcdefghij".chars().map(letters).collect();
    w.upsert("doc", &chunks.join(" "), &[], None, false).unwrap();
    let found = w.search("fff", 1, None, false, Some(CHUNK_SIZE)).unwrap();
    assert_eq!(found[0].chunks[0].text, chunks[5]);
    assert_eq!(found[0].token_count, Some(CHUNK_SIZE));
}

#[test]
fn full_text_comes_with_the_hits_on_request() {
    let mut w = world();
    let text = format!("{} {}", letters('a'), letters('b'));
    w.upsert("doc", &text, &[], None, false).unwrap();
    let found = w.search("aaa", 2, None, true, None).unwrap();
    assert_eq!(found[0].text, Some(text));
    let found = w.search("aaa", 2, None, false, None).unwrap();
    assert_eq!(found[0].text, None);
}

#[test]
fn best_document_comes_first() {
    let mut w = world();
    w.upsert("mixed", "aaa bbb aaa bbb", &[], None, false).unwrap();
    w.upsert("pure", &letters('a'), &[], None, false).unwrap();
    w.upsert("other", &letters('z'), &[], None, false).unwrap();
    let found = w.search("aaa", 10, None, false, None).unwrap();
    let ids: Vec<&str> = found.iter().map(|d| d.document_id.as_str()).collect();
    assert_eq!(ids, vec!["pure", "mixed", "other"]);
}

#[test]
fn system_tags_survive_an_upsert_that_keeps_them() {
    let mut w = world();
    w.upsert("doc", &letters('a'), &["a", "sys:owner=x"], None, false).unwrap();
    let d = w.upsert("doc", &letters('b'), &["b"], None, true).unwrap();
    assert_eq!(d.tags, strings(&["b", "sys:owner=x"]));
    assert_eq!(w.rows["doc"].tags, strings(&["b", "sys:owner=x"]));
    let points = w.points_of("doc");
    assert_eq!(points.len(), 1);
    assert!(points[0].payload.tags.contains(&"sys:owner=x".to_string()));
    assert_eq!(w.retrieve("doc", true).unwrap().unwrap().tags, strings(&["b"]));
    assert!(matches!(
        w.upsert("doc", &letters('c'), &["sys:owner=y"], None, true),
        Err(Error::SystemTagSupplied { .. })
    ));
    assert_eq!(w.rows["doc"].tags, strings(&["b", "sys:owner=x"]));
    let replaced = w.upsert("doc", &letters('c'), &["c"], None, false).unwrap();
    assert_eq!(replaced.tags, strings(&["c"]));
}

#[test]
fn tag_update_reaches_the_points() {
    let mut w = world();
    let text = format!("{} {}", letters('a'), letters('b'));
    w.upsert("doc", &text, &["y", "k"], None, false).unwrap();
    w.upsert("other", &letters('a'), &["y"], None, false).unwrap();
    let tags = w.update_tags("doc", &["x"], &["y"]);
    assert_eq!(tags, strings(&["k", "x"]));
    for point in w.points_of("doc") {
        assert_eq!(point.payload.tags, tags);
        assert!(point.payload.tags.contains(&"x".to_string()));
        assert!(!point.payload.tags.contains(&"y".to_string()));
    }
    for point in w.points_of("other") {
        assert_eq!(point.payload.tags, strings(&["y"]));
    }
    let found = w.search("aaa", 10, tagged(&["x"]), false, None).unwrap();
    assert_eq!(found.len(), 1);
    assert_eq!(found[0].document_id, "doc");
}

#[test]
fn retrieved_text_is_the_upserted_text() {
    let mut w = world();
    let text = "Zwölf  Boxkämpfer\tjagen Viktor\n quer über den großen Sylter Deich — ✓";
    w.upsert("doc", text, &["a"], Some(5), false).unwrap();
    let d = w.retrieve("doc", false).unwrap().unwrap();
    assert_eq!(d.text.unwrap().as_bytes(), text.as_bytes());
    assert_eq!(d.text_size, text.len() as u64);
    assert_eq!(d.timestamp, 5);
}

#[test]
fn deleted_document_is_not_found() {
    let mut w = world();
    w.upsert("doc", &letters('a'), &[], None, false).unwrap();
    w.upsert("stays", &letters('a'), &[], None, false).unwrap();
    w.delete_document("doc");
    assert!(w.retrieve("doc", false).unwrap().is_none());
    assert!(w.points_of("doc").is_empty());
    let found = w.search("aaa", 10, None, false, None).unwrap();
    assert_eq!(found.len(), 1);
    assert_eq!(found[0].document_id, "stays");
    assert!(matches!(loaded_document(w.rows.get("doc").cloned()), Err(Error::DocumentNotFound)));
}

#[test]
fn second_upsert_replaces_the_first() {
    let mut w = world();
    let first = format!("{} {} {}", letters('a'), letters('b'), letters('c'));
    let a = w.upsert("doc", &first, &["a"], Some(1), false).unwrap();
    let b = w.upsert("doc", &letters('z'), &["b"], Some(1), false).unwrap();
    assert_ne!(a.hash, b.hash);
    let d = w.retrieve("doc", false).unwrap().unwrap();
    assert_eq!(d.text, Some(letters('z')));
    assert_eq!(d.hash, b.hash);
    assert_eq!(d.tags, strings(&["b"]));
    let points = w.points_of("doc");
    assert_eq!(points.len(), 1);
    assert_eq!(points[0].payload.text, letters('z'));
    assert!(w.search("aaa", 10, tagged(&["a"]), false, None).unwrap().is_empty());
    // The first version is still in the archive, under its own fingerprint.
    assert_eq!(w.blobs[&w.ds.content_location(&a)], first.as_bytes().to_vec());
}

#[test]
fn row_behind_its_points_is_searched_and_left_as_it_is_when_nothing_is_missing() {
    let mut w = world();
    w.upsert("doc", &letters('a'), &[], None, false).unwrap();
    w.fail_at = Some(UpsertStage::Commit);
    let longer = format!("{} {} {}", letters('b'), letters('c'), letters('d'));
    assert!(w.upsert("doc", &longer, &[], None, false).is_err());
    // The row still counts one chunk, and the points are at offsets 0, 1, 2.
    assert_eq!(w.rows["doc"].chunk_count, 1);
    let found = w.search("ddd", 1, None, false, Some(CHUNK_SIZE)).unwrap();
    assert_eq!(found.len(), 1);
    assert_eq!(found[0].chunks.len(), 1);
    assert_eq!(found[0].chunks[0].offset, 2);
    assert_eq!(found[0].chunks[0].text, letters('d'));
    assert_eq!(found[0].token_count, Some(CHUNK_SIZE));
}

#[test]
fn empty_document_has_a_row_and_no_points() {
    let mut w = world();
    w.upsert("doc", &letters('a'), &[], None, false).unwrap();
    let d = w.upsert("doc", "", &[], None, false).unwrap();
    assert_eq!(d.chunk_count, 0);
    assert_eq!(d.token_count, Some(0));
    assert!(w.points_of("doc").is_empty());
    assert_eq!(w.retrieve("doc", false).unwrap().unwrap().text, Some(String::new()));
}

#[test]
fn failed_upsert_leaves_what_its_stage_says() {
    for stage in [
        UpsertStage::Archive,
        UpsertStage::Split,
        UpsertStage::Embed,
        UpsertStage::DeletePoints,
        UpsertStage::InsertPoints,
        UpsertStage::Commit,
    ] {
        let mut w = world();
        w.upsert("doc", &letters('a'), &[], None, false).unwrap();
        w.fail_at = Some(stage);
        assert!(w.upsert("doc", &letters('b'), &[], None, false).is_err());
        let row_is_old = w.retrieve("doc", false).unwrap().unwrap().text == Some(letters('a'));
        let texts: Vec<String> =
            w.points_of("doc").iter().map(|p| p.payload.text.clone()).collect();
        match stage.failure().unwrap() {
            UpsertFailure::Unchanged => {
                assert!(row_is_old);
                assert_eq!(texts, vec![letters('a')]);
            }
            UpsertFailure::NoPoints => {
                assert!(row_is_old);
                assert!(texts.is_empty());
            }
            UpsertFailure::RowBehind => {
                assert!(row_is_old);
                assert_eq!(texts, vec![letters('b')]);
            }
        }
        w.fail_at = None;
        w.upsert("doc", &letters('b'), &[], None, false).unwrap();
        assert_eq!(w.retrieve("doc", false).unwrap().unwrap().text, Some(letters('b')));
        assert_eq!(w.points_of("doc").len(), 1);
    }
}
