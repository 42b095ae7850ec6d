use pastee::hash::compute_hash;
use pastee::persist::{ClipData, ClipRecord, ClipType, StoreError, Storage};

fn text_record(id: i64, text: &str, at: i64) -> ClipRecord {
    ClipRecord {
        id,
        content_type: ClipType::Text,
        text_content: Some(text.to_string()),
        html_content: None,
        image_ref: None,
        file_paths: None,
        content_hash: compute_hash(text.as_bytes()),
        created_at: at,
        is_pinned: false,
    }
}

#[test]
fn restored_records_are_listed_and_deduplicated() {
    let mut s = Storage::new();
    s.restore(text_record(7, "kept", 50), None).unwrap();
    let items = s.get_recent(10, 0);
    assert_eq!(items.len(), 1);
    assert_eq!(items[0].id, 7);
    assert_eq!(s.add_text("kept".to_string(), 60).unwrap(), 7);
    assert_eq!(s.add_text("fresh".to_string(), 61).unwrap(), 8);
}

#[test]
fn restore_refuses_clashes_and_misfits() {
    let mut s = Storage::new();
    s.restore(text_record(1, "a", 1), None).unwrap();
    assert_eq!(s.restore(text_record(1, "b", 1), None), Err(StoreError::Invalid));
    assert_eq!(s.restore(text_record(2, "a", 1), None), Err(StoreError::Invalid));
    assert_eq!(s.restore(text_record(0, "c", 1), None), Err(StoreError::Invalid));
    let mut odd = text_record(3, "d", 1);
    odd.image_ref = Some("x.png".to_string());
    assert_eq!(s.restore(odd, None), Err(StoreError::Invalid));
    assert_eq!(s.get_recent(10, 0).len(), 1);
}

#[test]
fn restored_image_needs_its_bytes() {
    let mut s = Storage::new();
    let bytes = vec![4u8, 5, 6];
    let hash = compute_hash(&bytes);
    let rec = |id: i64| ClipRecord {
        id,
        content_type: ClipType::Image,
        text_content: None,
        html_content: None,
        image_ref: Some(format!("{}.png", hash)),
        file_paths: None,
        content_hash: hash.clone(),
        created_at: 1,
        is_pinned: false,
    };
    assert_eq!(s.restore(rec(3), None), Err(StoreError::Invalid));
    s.restore(rec(3), Some(bytes.clone())).unwrap();
    match s.get_content(3).unwrap() {
        ClipData::Image(b) => assert_eq!(b, bytes),
        other => panic!("expected image, got {:?}", other),
    }
    assert_eq!(s.add_image(bytes, 9).unwrap(), 3);
}

#[test]
fn ids_run_out_at_the_largest_value() {
    let mut s = Storage::new();
    s.restore(text_record(i64::MAX - 1, "last", 1), None).unwrap();
    assert_eq!(s.add_text("one more".to_string(), 2), Err(StoreError::IdsExhausted));
    assert_eq!(s.add_text("last".to_string(), 3), Ok(i64::MAX - 1));
}

#[test]
fn stored_records_keep_fingerprint_and_json() {
    let mut s = Storage::new();
    let id = s.add_files(vec!["/a".to_string(), "/b c".to_string()], 4).unwrap();
    let rec = s.record(id).unwrap();
    assert_eq!(rec.file_paths.as_deref(), Some("[\"/a\",\"/b c\"]"));
    assert_eq!(rec.text_content.as_deref(), Some("/a\n/b c"));
    assert_eq!(rec.content_hash, compute_hash(b"[\"/a\",\"/b c\"]"));
    assert_eq!(rec.image_ref, None);
    let img = s.add_image(vec![1, 2, 3], 5).unwrap();
    let rec = s.record(img).unwrap();
    assert_eq!(rec.image_ref, Some(format!("{}.png", compute_hash(&[1, 2, 3]))));
    assert!(s.record(999).is_none());
}

#[test]
fn restored_blob_must_match_its_bytes() {
    let mut s = Storage::new();
    let rec = ClipRecord {
        id: 4,
        content_type: ClipType::Image,
        text_content: None,
        html_content: None,
        image_ref: Some(format!("{}.png", compute_hash(&[1, 1]))),
        file_paths: None,
        content_hash: compute_hash(&[1, 1]),
        created_at: 1,
        is_pinned: false,
    };
    assert_eq!(s.restore(rec, Some(vec![2, 2])), Err(StoreError::Invalid));
    assert!(s.get_recent(10, 0).is_empty());
}
