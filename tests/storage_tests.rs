use clipman::crypto::Crypto;
use clipman::digest::content_hash;
use clipman::entry::{ClipItem, ContentType, StoredClip};
use clipman::history::RETENTION_CAPACITY;
use clipman::storage::{ClipStorage, InsertOutcome, StoreError};

fn item(id: &str, text: &str, ts: i64) -> ClipItem {
    ClipItem {
        id: id.to_string(),
        content: text.as_bytes().to_vec(),
        content_type: ContentType::Text,
        timestamp: ts,
        is_pinned: false,
        pin_order: None,
    }
}

fn sealed_store(capacity: usize) -> ClipStorage {
    ClipStorage::new(Some(Crypto::new(&[5u8; 32])), capacity)
}

fn ids(items: &[ClipItem]) -> Vec<String> {
    items.iter().map(|i| i.id.clone()).collect()
}

#[test]
fn same_content_twice_is_stored_once() {
    let mut s = sealed_store(RETENTION_CAPACITY);
    assert!(matches!(s.insert(&item("a", "hello", 1)), Ok(InsertOutcome::Inserted { .. })));
    assert!(matches!(s.insert(&item("b", "hello", 2)), Ok(InsertOutcome::Duplicate)));
    let all = s.get_recent(1000);
    assert_eq!(ids(&all), vec!["a"]);
    assert_eq!(all[0].content, b"hello".to_vec());
}

#[test]
fn same_bytes_of_other_type_is_not_a_duplicate() {
    let mut s = sealed_store(RETENTION_CAPACITY);
    s.insert(&item("a", "hello", 1)).unwrap();
    let mut html = item("b", "hello", 2);
    html.content_type = ContentType::Html;
    assert!(matches!(s.insert(&html), Ok(InsertOutcome::Inserted { .. })));
    assert_eq!(s.len(), 2);
}

#[test]
fn duplicate_beyond_window_is_stored_again() {
    let mut s = ClipStorage::new(None, 1000);
    s.insert(&item("first", "again", 0)).unwrap();
    for i in 0..100 {
        s.insert(&item(&format!("n{}", i), &format!("text {}", i), 1 + i)).unwrap();
    }
    assert!(matches!(s.insert(&item("second", "again", 200)), Ok(InsertOutcome::Inserted { .. })));
}

#[test]
fn inserted_row_is_sealed_with_digest() {
    let mut s = sealed_store(RETENTION_CAPACITY);
    match s.insert(&item("a", "secret", 1)).unwrap() {
        InsertOutcome::Inserted { row, evicted } => {
            assert!(evicted.is_empty());
            assert_eq!(row.content_hash, content_hash(&b"secret".to_vec()));
            assert_eq!(row.content.len(), 12 + 6 + 16);
            assert_ne!(&row.content[12..18], b"secret");
        }
        InsertOutcome::Duplicate => panic!("not a duplicate"),
    }
}

#[test]
fn hundred_and_five_inserts_keep_newest_hundred() {
    let mut s = sealed_store(100);
    for i in 0..105 {
        s.insert(&item(&format!("id{}", i), &format!("entry {}", i), 1000 + i)).unwrap();
    }
    let recent = s.get_recent(1000);
    assert_eq!(recent.len(), 100);
    let kept = ids(&recent);
    for i in 0..5 {
        assert!(!kept.contains(&format!("id{}", i)));
    }
    assert_eq!(kept[0], "id104");
    assert_eq!(kept[99], "id5");
}

#[test]
fn eviction_ignores_insertion_order_and_spares_pins() {
    let order = [4i64, 0, 6, 2, 5, 1, 3];
    let mut a = ClipStorage::new(None, 3);
    a.insert(&item("pin", "pinned", -50)).unwrap();
    a.update_pin("pin", true).unwrap();
    for t in order {
        a.insert(&item(&format!("e{}", t), &format!("v{}", t), t)).unwrap();
    }
    let mut b = ClipStorage::new(None, 3);
    b.insert(&item("pin", "pinned", -50)).unwrap();
    b.update_pin("pin", true).unwrap();
    for t in 0..7 {
        b.insert(&item(&format!("e{}", t), &format!("v{}", t), t)).unwrap();
    }
    assert_eq!(ids(&a.get_recent(100)), vec!["e6", "e5", "e4", "pin"]);
    assert_eq!(ids(&b.get_recent(100)), vec!["e6", "e5", "e4", "pin"]);
}

#[test]
fn insert_reports_evicted_ids() {
    let mut s = ClipStorage::new(None, 2);
    s.insert(&item("a", "1", 1)).unwrap();
    s.insert(&item("b", "2", 2)).unwrap();
    match s.insert(&item("c", "3", 3)).unwrap() {
        InsertOutcome::Inserted { evicted, .. } => assert_eq!(evicted, vec!["a".to_string()]),
        InsertOutcome::Duplicate => panic!("not a duplicate"),
    }
}

#[test]
fn pin_order_follows_pinning_and_repin_goes_last() {
    let mut s = sealed_store(RETENTION_CAPACITY);
    s.insert(&item("A", "alpha", 1)).unwrap();
    s.insert(&item("B", "beta", 2)).unwrap();
    s.insert(&item("C", "gamma", 3)).unwrap();
    assert_eq!(s.update_pin("A", true), Ok(Some(1)));
    assert_eq!(s.update_pin("B", true), Ok(Some(2)));
    assert_eq!(s.update_pin("C", true), Ok(Some(3)));
    assert_eq!(ids(&s.get_pinned()), vec!["A", "B", "C"]);
    assert_eq!(s.update_pin("B", false), Ok(None));
    assert_eq!(ids(&s.get_pinned()), vec!["A", "C"]);
    assert_eq!(s.update_pin("B", true), Ok(Some(4)));
    assert_eq!(ids(&s.get_pinned()), vec!["A", "C", "B"]);
}

#[test]
fn pinned_entries_survive_retention() {
    let mut s = ClipStorage::new(None, 2);
    s.insert(&item("old", "old", 0)).unwrap();
    s.update_pin("old", true).unwrap();
    for i in 1..10 {
        s.insert(&item(&format!("n{}", i), &format!("n{}", i), i)).unwrap();
    }
    assert_eq!(ids(&s.get_recent(100)), vec!["n9", "n8", "old"]);
}

#[test]
fn corrupted_row_is_skipped() {
    let crypto = Crypto::new(&[8u8; 32]);
    let mut s = ClipStorage::new(Some(Crypto::new(&[8u8; 32])), RETENTION_CAPACITY);
    for i in 0..10 {
        let text = format!("row {}", i);
        let sealed = crypto.encrypt(text.as_bytes()).unwrap();
        let content = if i == 4 { sealed[..5].to_vec() } else { sealed };
        s.restore(StoredClip {
            id: format!("r{}", i),
            content,
            content_hash: content_hash(&text.into_bytes()),
            content_type: ContentType::Text,
            timestamp: i,
            is_pinned: false,
            pin_order: None,
        })
        .unwrap();
    }
    let recent = s.get_recent(100);
    assert_eq!(recent.len(), 9);
    assert!(!ids(&recent).contains(&"r4".to_string()));
    assert_eq!(recent[0].content, b"row 9".to_vec());
}

#[test]
fn recent_is_newest_first_and_limited() {
    let mut s = sealed_store(RETENTION_CAPACITY);
    s.insert(&item("b", "b", 20)).unwrap();
    s.insert(&item("a", "a", 10)).unwrap();
    s.insert(&item("c", "c", 30)).unwrap();
    assert_eq!(ids(&s.get_recent(2)), vec!["c", "b"]);
    assert_eq!(ids(&s.get_recent(0)), Vec::<String>::new());
}

#[test]
fn search_is_case_insensitive_and_text_only() {
    let mut s = sealed_store(RETENTION_CAPACITY);
    s.insert(&item("1", "Hello World", 1)).unwrap();
    s.insert(&item("2", "say HELLO", 2)).unwrap();
    s.insert(&item("3", "goodbye", 3)).unwrap();
    let mut html = item("4", "hello in html", 4);
    html.content_type = ContentType::Html;
    s.insert(&html).unwrap();
    assert_eq!(ids(&s.search("hello")), vec!["2", "1"]);
    assert_eq!(ids(&s.search("ÖÄ")), Vec::<String>::new());
    assert_eq!(ids(&s.search("")), vec!["3", "2", "1"]);
}

#[test]
fn search_returns_at_most_fifty() {
    let mut s = ClipStorage::new(None, 1000);
    for i in 0..80 {
        s.insert(&item(&format!("x{}", i), &format!("match {}", i), i)).unwrap();
    }
    let hits = s.search("MATCH");
    assert_eq!(hits.len(), 50);
    assert_eq!(hits[0].id, "x79");
}

#[test]
fn search_scans_only_recent_text() {
    let mut s = ClipStorage::new(None, 1000);
    s.insert(&item("old", "needle", 0)).unwrap();
    for i in 0..500 {
        s.insert(&item(&format!("t{}", i), &format!("hay {}", i), 1 + i)).unwrap();
    }
    assert!(s.search("needle").is_empty());
}

#[test]
fn promote_moves_entry_to_top() {
    let mut s = sealed_store(RETENTION_CAPACITY);
    s.insert(&item("a", "a", 1)).unwrap();
    s.insert(&item("b", "b", 2)).unwrap();
    assert!(s.update_timestamp("a", 3));
    assert_eq!(ids(&s.get_recent(10)), vec!["a", "b"]);
    assert_eq!(s.get_by_id("a").unwrap().timestamp, 3);
    assert!(!s.update_timestamp("zzz", 9));
}

#[test]
fn delete_and_clear() {
    let mut s = sealed_store(RETENTION_CAPACITY);
    s.insert(&item("a", "a", 1)).unwrap();
    s.insert(&item("b", "b", 2)).unwrap();
    s.insert(&item("c", "c", 3)).unwrap();
    s.update_pin("a", true).unwrap();
    assert!(s.delete("b"));
    assert!(!s.delete("b"));
    s.clear_non_pinned();
    let left = s.get_recent(10);
    assert_eq!(ids(&left), vec!["a"]);
    assert_eq!(left[0].pin_order, Some(1));
    s.clear_all();
    assert_eq!(s.len(), 0);
}

#[test]
fn duplicate_id_is_an_error() {
    let mut s = sealed_store(RETENTION_CAPACITY);
    s.insert(&item("a", "one", 1)).unwrap();
    assert!(matches!(s.insert(&item("a", "two", 2)), Err(StoreError::DuplicateId)));
    assert_eq!(s.len(), 1);
}

#[test]
fn inconsistent_pin_state_is_refused() {
    let mut s = sealed_store(RETENTION_CAPACITY);
    let mut bad = item("a", "x", 1);
    bad.is_pinned = true;
    assert!(matches!(s.insert(&bad), Err(StoreError::InvalidRow)));
    let mut row = StoredClip {
        id: "p".to_string(),
        content: vec![],
        content_hash: String::new(),
        content_type: ContentType::Text,
        timestamp: 0,
        is_pinned: true,
        pin_order: Some(3),
    };
    assert_eq!(s.restore(row.clone()), Ok(()));
    row.id = "q".to_string();
    assert_eq!(s.restore(row.clone()), Err(StoreError::InvalidRow));
    row.id = "p".to_string();
    assert_eq!(s.restore(row), Err(StoreError::DuplicateId));
}

#[test]
fn pin_order_overflow_is_reported() {
    let mut s = ClipStorage::new(None, 10);
    s.restore(StoredClip {
        id: "top".to_string(),
        content: b"t".to_vec(),
        content_hash: content_hash(&b"t".to_vec()),
        content_type: ContentType::Text,
        timestamp: 0,
        is_pinned: true,
        pin_order: Some(i32::MAX),
    })
    .unwrap();
    s.insert(&item("x", "x", 1)).unwrap();
    assert_eq!(s.update_pin("x", true), Err(StoreError::PinOrderExhausted));
}

#[test]
fn undecryptable_pinned_entry_is_skipped() {
    let mut s = sealed_store(RETENTION_CAPACITY);
    s.insert(&item("a", "a", 1)).unwrap();
    s.update_pin("a", true).unwrap();
    s.restore(StoredClip {
        id: "bad".to_string(),
        content: vec![1, 2, 3],
        content_hash: String::new(),
        content_type: ContentType::Text,
        timestamp: 5,
        is_pinned: true,
        pin_order: Some(7),
    })
    .unwrap();
    assert_eq!(ids(&s.get_pinned()), vec!["a"]);
    assert!(s.get_by_id("bad").is_none());
}

#[test]
fn content_type_names_round_trip() {
    for t in [ContentType::Text, ContentType::Image, ContentType::File, ContentType::Html, ContentType::Rtf] {
        assert_eq!(ContentType::from_string(t.to_string()), t);
    }
    assert_eq!(ContentType::Image.to_string(), "image");
    assert_eq!(ContentType::from_string("unknown"), ContentType::Text);
}

#[test]
fn search_skips_unreadable_and_non_utf8_text() {
    let crypto = Crypto::new(&[6u8; 32]);
    let mut s = ClipStorage::new(Some(Crypto::new(&[6u8; 32])), RETENTION_CAPACITY);
    s.insert(&item("good", "find me", 1)).unwrap();
    let bad_utf8 = vec![b'f', b'i', b'n', b'd', 0xff];
    s.restore(StoredClip {
        id: "bytes".to_string(),
        content: crypto.encrypt(&bad_utf8).unwrap(),
        content_hash: content_hash(&bad_utf8),
        content_type: ContentType::Text,
        timestamp: 2,
        is_pinned: false,
        pin_order: None,
    })
    .unwrap();
    s.restore(StoredClip {
        id: "sealed-elsewhere".to_string(),
        content: Crypto::new(&[7u8; 32]).encrypt(b"find me too").unwrap(),
        content_hash: String::new(),
        content_type: ContentType::Text,
        timestamp: 3,
        is_pinned: false,
        pin_order: None,
    })
    .unwrap();
    assert_eq!(ids(&s.search("FIND")), vec!["good"]);
    assert_eq!(s.get_recent(10).len(), 2);
}
