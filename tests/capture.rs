use pastee::clipboard::{classify, dispatch, ClipEvent, ClipSnapshot, SystemHook};
use pastee::hash::compute_hash;
use pastee::persist::{ClipData, Storage};

fn snapshot(html: Option<&str>, text: Option<&str>, image: Option<Vec<u8>>, files: Option<Vec<&str>>) -> ClipSnapshot {
    ClipSnapshot {
        html: html.map(|s| s.to_string()),
        text: text.map(|s| s.to_string()),
        image,
        files: files.map(|f| f.into_iter().map(|s| s.to_string()).collect()),
    }
}

#[test]
fn hash_is_sha256_in_lowercase_hex() {
    assert_eq!(compute_hash(b"abc"), "ba7816bf8f01cfea414140de5dae2223b00361a396177a9cb410ff61f20015ad");
    assert_eq!(compute_hash(b""), "e3b0c44298fc1c149afbf4c8996fb92427ae41e4649b934ca495991b7852b855");
    assert_eq!(compute_hash(b"abc"), compute_hash(b"abc"));
    assert_ne!(compute_hash(b"abc"), compute_hash(b"abd"));
}

#[test]
fn html_wins_over_text() {
    let ev = classify(snapshot(Some("<p>x</p>"), Some("x"), None, None));
    assert!(matches!(ev, Some(ClipEvent::Html(ref h)) if h == "<p>x</p>"));
}

#[test]
fn formats_in_priority_order() {
    assert!(matches!(classify(snapshot(None, Some("x"), Some(vec![1]), None)), Some(ClipEvent::Text(_))));
    assert!(matches!(classify(snapshot(None, None, Some(vec![1]), Some(vec!["/a"]))), Some(ClipEvent::Image(_))));
    assert!(matches!(classify(snapshot(None, None, None, Some(vec!["/a"]))), Some(ClipEvent::FileList(_))));
    assert!(classify(snapshot(None, None, None, None)).is_none());
}

#[test]
fn repeat_within_window_is_suppressed() {
    let (tx, _rx) = crossbeam_channel::bounded(8);
    let mut hook = SystemHook::new(tx, 0);
    assert!(hook.update_latest(b"same", 1000));
    assert!(!hook.update_latest(b"same", 1499));
    assert!(hook.update_latest(b"same", 1500));
    assert!(hook.update_latest(b"other", 1501));
    assert!(hook.update_latest(b"same", 1502));
}

#[test]
fn first_capture_is_let_through() {
    let (tx, _rx) = crossbeam_channel::bounded(8);
    let mut hook = SystemHook::new(tx, 0);
    assert!(hook.update_latest(b"", 0));
}

#[test]
fn capture_hands_events_on_once() {
    let (tx, rx) = crossbeam_channel::bounded(8);
    let mut hook = SystemHook::new(tx, 0);
    assert!(hook.on_clipboard_change(Ok(snapshot(Some("<b>a</b>"), Some("a"), None, None)), 1000));
    assert!(!hook.on_clipboard_change(Ok(snapshot(Some("<b>a</b>"), Some("a"), None, None)), 1200));
    assert!(hook.on_clipboard_change(Ok(snapshot(Some("<b>a</b>"), Some("a"), None, None)), 1700));
    assert!(hook.on_clipboard_change(Err("busy".to_string()), 1800));
    assert!(matches!(rx.try_recv(), Ok(ClipEvent::Html(_))));
    assert!(matches!(rx.try_recv(), Ok(ClipEvent::Html(_))));
    assert!(matches!(rx.try_recv(), Ok(ClipEvent::Error(ref m)) if m == "busy"));
    assert!(rx.try_recv().is_err());
}

#[test]
fn file_list_debounces_on_joined_paths() {
    let (tx, _rx) = crossbeam_channel::bounded(8);
    let mut hook = SystemHook::new(tx, 0);
    let first = hook.capture(snapshot(None, None, None, Some(vec!["/a", "/b"])), 100);
    assert!(matches!(first, Some(ClipEvent::FileList(_))));
    assert!(!hook.update_latest(b"/a\n/b", 200));
}

#[test]
fn full_channel_drops_the_event() {
    let (tx, rx) = crossbeam_channel::bounded(1);
    let mut hook = SystemHook::new(tx, 0);
    assert!(hook.on_clipboard_change(Ok(snapshot(None, Some("one"), None, None)), 1000));
    assert!(!hook.on_clipboard_change(Ok(snapshot(None, Some("two"), None, None)), 2000));
    assert!(matches!(rx.try_recv(), Ok(ClipEvent::Text(ref t)) if t == "one"));
}

#[test]
fn dispatch_routes_events() {
    let mut s = Storage::new();
    assert!(dispatch(&mut s, ClipEvent::Error("x".to_string()), 1).is_none());
    let id = dispatch(&mut s, ClipEvent::Text(" hi ".to_string()), 2).unwrap().unwrap();
    assert!(matches!(s.get_content(id).unwrap(), ClipData::Text(ref t) if t == "hi"));
    let id = dispatch(&mut s, ClipEvent::Html("<i>x</i>".to_string()), 3).unwrap().unwrap();
    assert!(matches!(s.get_content(id).unwrap(), ClipData::Html { ref html, .. } if html == "<i>x</i>"));
    let id = dispatch(&mut s, ClipEvent::Image(vec![1, 2]), 4).unwrap().unwrap();
    assert!(matches!(s.get_content(id).unwrap(), ClipData::Image(ref b) if b == &vec![1u8, 2]));
    let id = dispatch(&mut s, ClipEvent::FileList(vec!["/f".to_string()]), 5).unwrap().unwrap();
    assert!(matches!(s.get_content(id).unwrap(), ClipData::Files(ref p) if p == &vec!["/f".to_string()]));
    assert_eq!(s.get_recent(10, 0).len(), 4);
}

#[test]
fn empty_snapshot_gives_an_error_event() {
    let (tx, rx) = crossbeam_channel::bounded(8);
    let mut hook = SystemHook::new(tx, 0);
    assert!(hook.on_clipboard_change(Ok(snapshot(None, None, None, None)), 1000));
    assert!(matches!(rx.try_recv(), Ok(ClipEvent::Error(ref m)) if m == "no supported clipboard format"));
    assert!(hook.update_latest(b"x", 1001));
}

#[test]
fn failed_read_gives_its_message() {
    let (tx, _rx) = crossbeam_channel::bounded(8);
    let mut hook = SystemHook::new(tx, 0);
    let ev = hook.event_for(Err("clipboard busy".to_string()), 10);
    assert!(matches!(ev, Some(ClipEvent::Error(ref m)) if m == "clipboard busy"));
    let ev = hook.event_for(Ok(snapshot(None, Some("t"), None, None)), 20);
    assert!(matches!(ev, Some(ClipEvent::Text(ref t)) if t == "t"));
    assert!(hook.event_for(Ok(snapshot(None, Some("t"), None, None)), 30).is_none());
}
