use pastee::persist::{ClipData, ClipType, StoreError, Storage};
use pastee::{query_history, select_clip_item};

fn text_of(data: ClipData) -> String {
    match data {
        ClipData::Text(t) => t,
        other => panic!("expected text, got {:?}", other),
    }
}

#[test]
fn text_round_trip() {
    let mut s = Storage::new();
    let id = s.add_text("hello".to_string(), 1).unwrap();
    assert!(id > 0);
    assert_eq!(text_of(s.get_content(id).unwrap()), "hello");
}

#[test]
fn text_is_trimmed_before_storing() {
    let mut s = Storage::new();
    let id = s.add_text("  hello world \n\t".to_string(), 5).unwrap();
    assert_eq!(text_of(s.get_content(id).unwrap()), "hello world");
    let again = s.add_text("hello world".to_string(), 6).unwrap();
    assert_eq!(again, id);
}

#[test]
fn same_text_twice_gives_one_record() {
    let mut s = Storage::new();
    let a = s.add_text("copy me".to_string(), 100).unwrap();
    let b = s.add_text("copy me".to_string(), 200).unwrap();
    assert_eq!(a, b);
    let items = s.get_recent(10, 0);
    assert_eq!(items.len(), 1);
    assert_eq!(items[0].id, a);
    assert_eq!(items[0].created_at, 200);
}

#[test]
fn distinct_texts_get_increasing_ids() {
    let mut s = Storage::new();
    let a = s.add_text("one".to_string(), 1).unwrap();
    let b = s.add_text("two".to_string(), 2).unwrap();
    assert_eq!(a, 1);
    assert_eq!(b, 2);
}

#[test]
fn empty_text_and_empty_file_list_store_nothing() {
    let mut s = Storage::new();
    assert_eq!(s.add_text("".to_string(), 1).unwrap(), 0);
    assert_eq!(s.add_text("  \n\t ".to_string(), 1).unwrap(), 0);
    assert_eq!(s.add_files(vec![], 1).unwrap(), 0);
    assert!(s.get_recent(10, 0).is_empty());
}

#[test]
fn html_keeps_text_and_markup() {
    let mut s = Storage::new();
    let id = s.add_html("hi".to_string(), "<b>hi</b>".to_string(), 3).unwrap();
    match s.get_content(id).unwrap() {
        ClipData::Html { text, html } => {
            assert_eq!(text, "hi");
            assert_eq!(html, "<b>hi</b>");
        }
        other => panic!("expected html, got {:?}", other),
    }
}

#[test]
fn html_is_keyed_by_markup() {
    let mut s = Storage::new();
    let a = s.add_html("hi".to_string(), "<b>hi</b>".to_string(), 3).unwrap();
    let b = s.add_html("hi".to_string(), "<i>hi</i>".to_string(), 4).unwrap();
    let c = s.add_html("other".to_string(), "<b>hi</b>".to_string(), 5).unwrap();
    assert_ne!(a, b);
    assert_eq!(a, c);
    match s.get_content(a).unwrap() {
        ClipData::Html { text, .. } => assert_eq!(text, "hi"),
        other => panic!("expected html, got {:?}", other),
    }
}

#[test]
fn image_round_trip() {
    let mut s = Storage::new();
    let bytes: Vec<u8> = vec![0, 1, 2, 250, 255, 7];
    let id = s.add_image(bytes.clone(), 1).unwrap();
    match s.get_content(id).unwrap() {
        ClipData::Image(b) => assert_eq!(b, bytes),
        other => panic!("expected image, got {:?}", other),
    }
}

#[test]
fn repeated_image_only_renews_time() {
    let mut s = Storage::new();
    let bytes: Vec<u8> = vec![9, 8, 7, 6];
    let a = s.add_image(bytes.clone(), 10).unwrap();
    let b = s.add_image(bytes.clone(), 20).unwrap();
    assert_eq!(a, b);
    let items = s.get_recent(10, 0);
    assert_eq!(items.len(), 1);
    assert_eq!(items[0].created_at, 20);
    assert_eq!(items[0].content_type, ClipType::Image);
    assert_eq!(items[0].preview, "[图片]");
    match s.get_content(a).unwrap() {
        ClipData::Image(got) => assert_eq!(got, bytes),
        other => panic!("expected image, got {:?}", other),
    }
}

#[test]
fn file_list_round_trip_and_preview() {
    let mut s = Storage::new();
    let paths = vec!["C:\\Users\\Photo.jpg".to_string(), "/home/me/notes.txt".to_string()];
    let id = s.add_files(paths.clone(), 7).unwrap();
    match s.get_content(id).unwrap() {
        ClipData::Files(p) => assert_eq!(p, paths),
        other => panic!("expected files, got {:?}", other),
    }
    let items = s.get_recent(10, 0);
    assert_eq!(items[0].preview, "[文件] 2 个项目: C:\\Users\\Photo.jpg");
    let found = s.search("Photo");
    assert_eq!(found.len(), 1);
    assert_eq!(found[0].id, id);
    assert_eq!(found[0].preview, "[文件]");
    let found = s.search("notes");
    assert_eq!(found.len(), 1);
}

#[test]
fn same_file_list_twice_gives_one_record() {
    let mut s = Storage::new();
    let a = s.add_files(vec!["/a".to_string(), "/b".to_string()], 1).unwrap();
    let b = s.add_files(vec!["/a".to_string(), "/b".to_string()], 2).unwrap();
    let c = s.add_files(vec!["/b".to_string(), "/a".to_string()], 3).unwrap();
    assert_eq!(a, b);
    assert_ne!(a, c);
}

#[test]
fn pinned_records_list_first() {
    let mut s = Storage::new();
    let old = s.add_text("old".to_string(), 1).unwrap();
    let mid = s.add_text("mid".to_string(), 2).unwrap();
    let new = s.add_text("new".to_string(), 3).unwrap();
    s.set_pinned(old, true).unwrap();
    let ids: Vec<i64> = s.get_recent(10, 0).iter().map(|i| i.id).collect();
    assert_eq!(ids, vec![old, new, mid]);
    assert!(s.get_recent(10, 0)[0].is_pinned);
    assert_eq!(s.set_pinned(99, true), Err(StoreError::NotFound));
}

#[test]
fn recent_honours_limit_and_offset() {
    let mut s = Storage::new();
    for t in 1..=5i64 {
        s.add_text(format!("item {}", t), t * 10).unwrap();
    }
    let ids: Vec<i64> = s.get_recent(2, 1).iter().map(|i| i.id).collect();
    assert_eq!(ids, vec![4, 3]);
    assert!(s.get_recent(3, 5).is_empty());
    assert_eq!(s.get_recent(100, 3).len(), 2);
    assert!(s.get_recent(0, 0).is_empty());
}

#[test]
fn recent_preview_is_short_and_on_one_line() {
    let mut s = Storage::new();
    let long: String = "ab\ncd".repeat(40);
    s.add_text(long.clone(), 1).unwrap();
    let items = s.get_recent(1, 0);
    let want: String = long.chars().take(100).collect::<String>().replace('\n', " ");
    assert_eq!(items[0].preview, want);
    assert_eq!(items[0].preview.chars().count(), 100);
}

#[test]
fn search_finds_containing_text() {
    let mut s = Storage::new();
    let id = s.add_text("the quick brown fox".to_string(), 1).unwrap();
    s.add_text("lazy dog".to_string(), 2).unwrap();
    let found: Vec<i64> = s.search("fox").iter().map(|i| i.id).collect();
    assert!(found.contains(&id));
    assert_eq!(found.len(), 1);
    assert!(s.search("giraffe").is_empty());
}

#[test]
fn search_strips_quotes_and_ignores_empty_phrase() {
    let mut s = Storage::new();
    let id = s.add_text("say \"hello\" there".to_string(), 1).unwrap();
    assert!(s.search("\"\"").is_empty());
    assert!(s.search("").is_empty());
    let found = s.search("\"there\"");
    assert_eq!(found.len(), 1);
    assert_eq!(found[0].id, id);
}

#[test]
fn search_orders_by_time_not_pin_and_caps_results() {
    let mut s = Storage::new();
    for t in 1..=60i64 {
        s.add_text(format!("match number {}", t), t).unwrap();
    }
    s.set_pinned(1, true).unwrap();
    let found = s.search("match");
    assert_eq!(found.len(), 50);
    assert_eq!(found[0].id, 60);
    assert_eq!(found[49].id, 11);
}

#[test]
fn search_preview_keeps_fifty_characters() {
    let mut s = Storage::new();
    let long = "x".repeat(80);
    s.add_text(long, 1).unwrap();
    let found = s.search(&"x".repeat(80));
    assert_eq!(found[0].preview, "x".repeat(50));
}

#[test]
fn missing_record_is_not_found() {
    let s = Storage::new();
    assert!(matches!(s.get_content(42), Err(StoreError::NotFound)));
    assert!(matches!(select_clip_item(&s, 1), Err(StoreError::NotFound)));
}

#[test]
fn history_query_routes_by_emptiness() {
    let mut s = Storage::new();
    s.add_text("alpha".to_string(), 1).unwrap();
    s.add_text("beta".to_string(), 2).unwrap();
    assert_eq!(query_history(&s, "").len(), 2);
    assert!(query_history(&s, "alp").is_empty());
    let hits = query_history(&s, "ALPHA");
    assert_eq!(hits.len(), 1);
    assert_eq!(hits[0].preview, "alpha");
}

#[test]
fn clip_type_names() {
    assert_eq!(ClipType::Text.to_string(), "text");
    assert_eq!(ClipType::Html.to_string(), "html");
    assert_eq!(ClipType::Image.to_string(), "image");
    assert_eq!(ClipType::Files.to_string(), "files");
    assert_eq!(ClipType::from("html".to_string()), ClipType::Html);
    assert_eq!(ClipType::from("image".to_string()), ClipType::Image);
    assert_eq!(ClipType::from("files".to_string()), ClipType::Files);
    assert_eq!(ClipType::from("text".to_string()), ClipType::Text);
    assert_eq!(ClipType::from("unknown".to_string()), ClipType::Text);
}

#[test]
fn search_matches_whole_words_in_a_row() {
    let mut s = Storage::new();
    let id = s.add_text("The quick, brown fox!".to_string(), 1).unwrap();
    assert_eq!(s.search("FOX").len(), 1);
    assert_eq!(s.search("quick brown")[0].id, id);
    assert_eq!(s.search("quick   BROWN").len(), 1);
    assert!(s.search("fo").is_empty());
    assert!(s.search("brown quick").is_empty());
    assert!(s.search("!!").is_empty());
}
