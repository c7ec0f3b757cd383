use orochi::json::{Document, Field};
use orochi::quality::{
    clock_secs, now_secs, read_body, read_document, ClipEntry, QualityState, QualityStore, QUALITY_PORT,
    QUALITY_TOKEN,
};

fn entry(ts: u64, comments: &[&str]) -> ClipEntry {
    ClipEntry { ts, comments: comments.iter().map(|c| c.to_string()).collect() }
}

fn comments_of(store: &QualityStore, id: &str) -> Option<Vec<String>> {
    store.entries().iter().find(|e| e.0 == id).map(|e| e.1.comments.clone())
}

#[test]
fn payload_is_read() {
    let i = read_body("{\"clipId\":\"c1\",\"comments\":[\"a\",3,\"b\",null,[\"x\"]]}").unwrap();
    assert_eq!(i.clip_id, "c1");
    assert_eq!(i.comments, vec!["a", "b"]);
}

#[test]
fn payload_without_comments_has_none() {
    for body in [
        "{\"clipId\":\"c1\"}",
        "{\"clipId\":\"c1\",\"comments\":\"text\"}",
        "{\"clipId\":\"c1\",\"comments\":null}",
        "{\"clipId\":\"c1\",\"comments\":{}}",
    ] {
        let i = read_body(body).unwrap();
        assert_eq!(i.clip_id, "c1");
        assert!(i.comments.is_empty());
    }
}

#[test]
fn payload_needs_a_clip_id() {
    for body in ["{}", "{\"clipId\":7}", "[]", "null", "\"clipId\"", "{\"clipid\":\"x\"}"] {
        assert_eq!(read_body(body).unwrap_err(), "missing clipId");
    }
}

#[test]
fn later_of_two_equal_keys_counts() {
    assert_eq!(read_body("{\"clipId\":\"a\",\"clipId\":\"b\"}").unwrap().clip_id, "b");
}

#[test]
fn payload_that_is_no_json_gives_the_parser_error() {
    for body in ["", "{", "{\"clipId\":\"c1\"} x", "nul"] {
        let expected = serde_json::from_str::<serde_json::Value>(body).unwrap_err().to_string();
        assert_eq!(read_body(body).unwrap_err(), expected);
    }
}

#[test]
fn escapes_in_payloads_are_decoded() {
    let i = read_body("{\"clipId\":\"\\u00e4\\n\",\"comments\":[\"\\ud83d\\ude00\"]}").unwrap();
    assert_eq!(i.clip_id, "ä\n");
    assert_eq!(i.comments, vec!["\u{1F600}"]);
}

#[test]
fn payload_replaces_its_clip() {
    let mut store = QualityStore::default();
    assert_eq!(store.version(), 1);
    assert_eq!(
        store.handle_ingest("{\"clipId\":\"c1\",\"comments\":[\"a\"]}"),
        Ok(("c1".to_string(), 1))
    );
    assert_eq!(
        store.handle_ingest("{\"clipId\":\"c2\",\"comments\":[\"b\"]}"),
        Ok(("c2".to_string(), 2))
    );
    assert_eq!(
        store.handle_ingest("{\"clipId\":\"c1\",\"comments\":[\"c\",\"d\"]}"),
        Ok(("c1".to_string(), 2))
    );
    assert_eq!(comments_of(&store, "c1"), Some(vec!["c".to_string(), "d".to_string()]));
    assert_eq!(comments_of(&store, "c2"), Some(vec!["b".to_string()]));
    assert_eq!(store.clip_count(), 2);
}

#[test]
fn refused_payload_changes_nothing() {
    let mut store = QualityStore::from_entries(7, vec![("c1".to_string(), entry(5, &["a"]))]);
    assert_eq!(store.handle_ingest("{}"), Err("missing clipId".to_string()));
    assert!(store.handle_ingest("{").is_err());
    assert_eq!(store.version(), 7);
    assert_eq!(store.clip_count(), 1);
    assert_eq!(store.entries()[0].1.ts, 5);
}

#[test]
fn accepted_payload_sets_version_and_time() {
    let mut store = QualityStore::from_entries(7, vec![]);
    let before = now_secs();
    store.handle_ingest("{\"clipId\":\"c1\"}").unwrap();
    let after = now_secs();
    assert_eq!(store.version(), 1);
    let ts = store.entries()[0].1.ts;
    assert!(before <= ts && ts <= after);
    let i = read_body("{\"clipId\":\"c1\"}").unwrap();
    assert_eq!(store.apply(i, 42), 1);
    assert_eq!(store.entries()[0].1.ts, 42);
}

#[test]
fn clearing_forgets_the_clips_only() {
    let mut store = QualityStore::from_entries(3, vec![("c1".to_string(), entry(5, &["a"]))]);
    store.clear();
    assert_eq!(store.clip_count(), 0);
    assert_eq!(store.version(), 3);
}

#[test]
fn later_entry_with_one_id_counts() {
    let store = QualityStore::from_entries(
        1,
        vec![
            ("a".to_string(), entry(1, &["old"])),
            ("b".to_string(), entry(2, &[])),
            ("a".to_string(), entry(3, &["new"])),
        ],
    );
    assert_eq!(store.clip_count(), 2);
    assert_eq!(comments_of(&store, "a"), Some(vec!["new".to_string()]));
}

#[test]
fn order_of_entries_does_not_matter() {
    let one = QualityStore::from_entries(
        1,
        vec![("a".to_string(), entry(1, &["x"])), ("b".to_string(), entry(2, &["y"]))],
    );
    let two = QualityStore::from_entries(
        1,
        vec![("b".to_string(), entry(2, &["y"])), ("a".to_string(), entry(1, &["x"]))],
    );
    for id in ["a", "b", "c"] {
        assert_eq!(comments_of(&one, id), comments_of(&two, id));
    }
}

#[test]
fn store_that_cannot_be_read_is_empty() {
    let store = QualityStore::load(None);
    assert_eq!((store.version(), store.clip_count()), (1, 0));
    let read = QualityStore::from_entries(2, vec![("a".to_string(), entry(1, &[]))]);
    let store = QualityStore::load(Some(read));
    assert_eq!((store.version(), store.clip_count()), (2, 1));
}

#[test]
fn clock_before_the_epoch_counts_as_zero() {
    assert_eq!(clock_secs(None), 0);
    assert_eq!(clock_secs(Some(1700000000)), 1700000000);
    assert!(now_secs() > 1700000000);
}

#[test]
fn bridge_is_configured_by_its_settings() {
    let usual = QualityState::configure(None, None);
    assert_eq!(usual.quality_conn(), (47800, "orochi-local-7Q2vXm".to_string()));
    let set = QualityState::configure(Some("8080".to_string()), Some("secret".to_string()));
    assert_eq!(set.quality_conn(), (8080, "secret".to_string()));
    let bad = QualityState::configure(Some("70000".to_string()), Some(String::new()));
    assert_eq!(bad.port, QUALITY_PORT);
    assert_eq!(bad.token, QUALITY_TOKEN);
    let spaced = QualityState::configure(Some(" 80".to_string()), Some(" ".to_string()));
    assert_eq!(spaced.quality_conn(), (47800, " ".to_string()));
}

fn text(t: &str) -> Field {
    Field { text: Some(t.to_string()), flag: None, items: None }
}

#[test]
fn document_is_read_by_its_members() {
    let items = vec![Some("a".to_string()), None, Some("b".to_string())];
    let comments = Field { text: None, flag: None, items: Some(items) };
    let document = Document {
        fields: Some(vec![
            ("comments".to_string(), comments),
            ("other".to_string(), text("x")),
            ("clipId".to_string(), text("c9")),
        ]),
    };
    let i = read_document(&document).unwrap();
    assert_eq!(i.clip_id, "c9");
    assert_eq!(i.comments, vec!["a", "b"]);
    assert_eq!(document.get("other").unwrap().text, Some("x".to_string()));
    assert!(document.get("Other").is_none());
}

#[test]
fn document_without_a_clip_is_refused() {
    assert_eq!(read_document(&Document { fields: None }).unwrap_err(), "missing clipId");
    let flagged = Field { text: None, flag: Some(true), items: None };
    let document = Document { fields: Some(vec![("clipId".to_string(), flagged)]) };
    assert_eq!(read_document(&document).unwrap_err(), "missing clipId");
}

#[test]
fn store_is_the_same_after_a_round_trip() {
    let mut store = QualityStore::from_entries(4, vec![]);
    for (id, c) in [("a", "x"), ("b", "y"), ("c", "z")] {
        store.apply(read_body(&format!("{{\"clipId\":\"{}\",\"comments\":[\"{}\",\"w\"]}}", id, c)).unwrap(), 9);
    }
    let mut written: Vec<(String, ClipEntry)> = store
        .entries()
        .iter()
        .map(|(id, e)| (id.clone(), ClipEntry { ts: e.ts, comments: e.comments.clone() }))
        .collect();
    written.reverse();
    let read = QualityStore::load(Some(QualityStore::from_entries(store.version(), written)));
    assert_eq!((read.version(), read.clip_count()), (store.version(), store.clip_count()));
    for id in ["a", "b", "c", "d"] {
        assert_eq!(comments_of(&read, id), comments_of(&store, id));
    }
    assert!(read.entries().iter().all(|e| e.1.ts == 9));
}
