use clipman::capture::{
    on_image_change, on_text_change, prepare_copy, ClipboardPayload, CopyError, SelfCopyMarker, Watcher,
    SELF_COPY_GRACE_MS,
};
use clipman::crypto::Crypto;
use clipman::entry::{ClipItem, ContentType};
use clipman::storage::ClipStorage;
use clipman::transcode::{create_thumbnail, decode_for_clipboard, image_to_bytes, PixelBuffer};

fn item(id: &str, content: &[u8], t: ContentType, ts: i64) -> ClipItem {
    ClipItem {
        id: id.to_string(),
        content: content.to_vec(),
        content_type: t,
        timestamp: ts,
        is_pinned: false,
        pin_order: None,
    }
}

#[test]
fn watcher_signals_only_changes() {
    let mut w = Watcher::new();
    assert!(!w.observe_text(&String::new()));
    assert!(w.observe_text(&"a".to_string()));
    assert!(!w.observe_text(&"a".to_string()));
    assert!(w.observe_text(&"b".to_string()));
    assert!(w.observe_image(&vec![1, 2]));
    assert!(!w.observe_image(&vec![1, 2]));
    assert!(w.observe_image(&vec![1, 3]));
}

#[test]
fn self_copy_is_suppressed_within_grace_only() {
    let mut marker = SelfCopyMarker::new();
    marker.set("T".to_string(), 10_000);
    let mut w = Watcher::new();
    assert!(on_text_change(&mut w, &marker, "T".to_string(), 10_500).is_none());
    assert!(!w.observe_text(&"T".to_string()));
    let mut w2 = Watcher::new();
    let later = 10_000 + SELF_COPY_GRACE_MS;
    let captured = on_text_change(&mut w2, &marker, "T".to_string(), later).unwrap();
    assert_eq!(captured.content, b"T".to_vec());
    assert_eq!(captured.content_type, ContentType::Text);
    assert!(!captured.is_pinned);
    assert_eq!(captured.id.len(), 36);
}

#[test]
fn other_text_is_captured_during_grace() {
    let mut marker = SelfCopyMarker::new();
    marker.set("mine".to_string(), 0);
    let mut w = Watcher::new();
    assert!(on_text_change(&mut w, &marker, "theirs".to_string(), 1).is_some());
    marker.clear();
    let mut w2 = Watcher::new();
    assert!(on_text_change(&mut w2, &marker, "mine".to_string(), 1).is_some());
}

#[test]
fn changed_picture_becomes_thumbnail_entry() {
    let pixels = PixelBuffer { width: 4, height: 2, bytes: vec![200u8; 32] };
    let mut w = Watcher::new();
    let it = on_image_change(&mut w, &pixels, false).unwrap();
    assert_eq!(it.content_type, ContentType::Image);
    assert_eq!(it.content, create_thumbnail(&image_to_bytes(&pixels)));
    let (tw, th, _) = decode_for_clipboard(&it.content).unwrap();
    assert_eq!((tw, th), (256, 128));
    assert!(on_image_change(&mut w, &pixels, false).is_none());
    let full = on_image_change(&mut Watcher::new(), &pixels, true).unwrap();
    assert_eq!(decode_for_clipboard(&full.content).map(|d| (d.0, d.1)), Some((4, 2)));
}

#[test]
fn recopy_text_promotes_and_marks() {
    let mut s = ClipStorage::new(Some(Crypto::new(&[2u8; 32])), 100);
    s.insert(&item("a", b"alpha", ContentType::Text, 1)).unwrap();
    s.insert(&item("b", b"beta", ContentType::Text, 2)).unwrap();
    let mut marker = SelfCopyMarker::new();
    match prepare_copy(&mut s, &mut marker, "a", 50, 7_000).unwrap() {
        ClipboardPayload::Text(t) => assert_eq!(t, "alpha"),
        other => panic!("unexpected payload {:?}", other),
    }
    assert_eq!(s.get_recent(1)[0].id, "a");
    assert!(marker.suppresses(&"alpha".to_string(), 7_001));
    assert!(!marker.suppresses(&"alpha".to_string(), 9_000));
}

#[test]
fn recopy_file_and_missing() {
    let mut s = ClipStorage::new(None, 100);
    s.insert(&item("f", b"/tmp/x.txt", ContentType::File, 1)).unwrap();
    let mut marker = SelfCopyMarker::new();
    match prepare_copy(&mut s, &mut marker, "f", 5, 0).unwrap() {
        ClipboardPayload::Text(t) => assert_eq!(t, "/tmp/x.txt"),
        other => panic!("unexpected payload {:?}", other),
    }
    assert!(!marker.suppresses(&"/tmp/x.txt".to_string(), 0));
    assert!(matches!(prepare_copy(&mut s, &mut marker, "nope", 5, 0), Err(CopyError::NotFound)));
}

#[test]
fn recopy_image_decodes_or_fails() {
    let png = image_to_bytes(&PixelBuffer { width: 2, height: 1, bytes: vec![1, 2, 3, 4, 5, 6, 7, 8] });
    let mut s = ClipStorage::new(None, 100);
    s.insert(&item("i", &png, ContentType::Image, 1)).unwrap();
    s.insert(&item("j", b"not a picture", ContentType::Image, 2)).unwrap();
    let mut marker = SelfCopyMarker::new();
    match prepare_copy(&mut s, &mut marker, "i", 5, 0).unwrap() {
        ClipboardPayload::Image { width, height, rgba } => {
            assert_eq!((width, height), (2, 1));
            assert_eq!(rgba, vec![1, 2, 3, 4, 5, 6, 7, 8]);
        }
        other => panic!("unexpected payload {:?}", other),
    }
    assert!(matches!(prepare_copy(&mut s, &mut marker, "j", 6, 0), Err(CopyError::ImageDecode)));
}
