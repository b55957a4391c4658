use concur_server::digest::{digest, fnv1a_of, to_hex};
use concur_server::file_sync::{FileStore, FileWrite};
use concur_server::routes::AppError;

#[test]
fn digest_is_fnv1a_in_hex() {
    assert_eq!(digest(""), "cbf29ce484222325");
    assert_eq!(digest("a"), "af63dc4c8601ec8c");
    assert_eq!(digest("hello"), "a430d84680aabd0b");
    assert_eq!(digest("world"), "4f59ff5e730c8af3");
    assert_eq!(digest("h\u{e9}llo"), "a35ff71f960240e0");
    assert_eq!(fnv1a_of(b"hello"), 0xa430d84680aabd0b);
    assert_eq!(to_hex(0), "0000000000000000");
    assert_eq!(to_hex(u64::MAX), "ffffffffffffffff");
    assert_eq!(to_hex(0x0123456789abcdef), "0123456789abcdef");
}

#[test]
fn second_upsert_replaces_the_first() {
    let mut s = FileStore::new();
    let first = s.upsert_at(7, "/note.md".to_string(), "hello".to_string(), 1000).unwrap();
    assert_eq!(first.id, Some(1));
    assert_eq!(first.content, "hello");
    assert_eq!(first.hash, "a430d84680aabd0b");
    assert_eq!(first.last_sync, 1000);
    let second = s.upsert_at(7, "/note.md".to_string(), "world".to_string(), 1001).unwrap();
    assert_eq!(s.len(), 1);
    assert_eq!(second.id, Some(1));
    assert_eq!(second.vault_id, 7);
    assert_eq!(second.path, "/note.md");
    assert_eq!(second.content, "world");
    assert_eq!(second.hash, "4f59ff5e730c8af3");
    assert!(second.last_sync > first.last_sync);
    let stored = s.get(7, "/note.md").unwrap();
    assert_eq!(stored.content, "world");
    assert_eq!(stored.hash, digest("world"));
}

#[test]
fn upsert_keeps_paths_apart_by_vault() {
    let mut s = FileStore::new();
    s.upsert_at(1, "/a".to_string(), "one".to_string(), 1).unwrap();
    s.upsert_at(2, "/a".to_string(), "two".to_string(), 2).unwrap();
    s.upsert_at(1, "/b".to_string(), "three".to_string(), 3).unwrap();
    assert_eq!(s.len(), 3);
    assert_eq!(s.get(1, "/a").unwrap().content, "one");
    assert_eq!(s.get(2, "/a").unwrap().content, "two");
    assert_eq!(s.get(2, "/a").unwrap().id, Some(2));
    assert!(s.get(2, "/b").is_none());
}

#[test]
fn upsert_stamps_with_the_clock() {
    let mut s = FileStore::new();
    let f = s.upsert(1, "/a".to_string(), "x".to_string()).unwrap();
    assert!(f.last_sync > 1_600_000_000_000);
    assert_eq!(f.hash, digest("x"));
}

#[test]
fn watermark_is_exclusive() {
    let mut s = FileStore::new();
    s.upsert_at(1, "/a".to_string(), "a".to_string(), 100).unwrap();
    s.upsert_at(1, "/b".to_string(), "b".to_string(), 200).unwrap();
    s.upsert_at(2, "/c".to_string(), "c".to_string(), 300).unwrap();
    let paths = |v: Vec<concur_server::models::file::File>| -> Vec<String> {
        v.into_iter().map(|f| f.path).collect()
    };
    assert_eq!(paths(s.list_changed_since(1, 99)), vec!["/a", "/b"]);
    assert_eq!(paths(s.list_changed_since(1, 100)), vec!["/b"]);
    assert_eq!(paths(s.list_changed_since(1, 199)), vec!["/b"]);
    assert!(s.list_changed_since(1, 200).is_empty());
    assert_eq!(paths(s.list_changed_since(2, i64::MIN)), vec!["/c"]);
    assert!(s.list_changed_since(3, i64::MIN).is_empty());
    assert!(s.list_changed_since(2, i64::MAX).is_empty());
}

#[test]
fn listing_carries_the_whole_record() {
    let mut s = FileStore::new();
    s.upsert_at(1, "/a".to_string(), "hello".to_string(), 100).unwrap();
    let listed = s.list_changed_since(1, 0);
    assert_eq!(listed.len(), 1);
    assert_eq!(listed[0].id, Some(1));
    assert_eq!(listed[0].vault_id, 1);
    assert_eq!(listed[0].content, "hello");
    assert_eq!(listed[0].hash, "a430d84680aabd0b");
    assert_eq!(listed[0].last_sync, 100);
}

#[test]
fn batch_applies_every_write_in_order() {
    let mut s = FileStore::new();
    s.upsert_at(1, "/a".to_string(), "old".to_string(), 1).unwrap();
    let writes = vec![
        FileWrite { vault_id: 1, path: "/a".to_string(), content: "new".to_string() },
        FileWrite { vault_id: 1, path: "/b".to_string(), content: "b1".to_string() },
        FileWrite { vault_id: 1, path: "/b".to_string(), content: "b2".to_string() },
    ];
    assert!(s.upsert_batch_at(&writes, 50).is_ok());
    assert_eq!(s.len(), 2);
    assert_eq!(s.get(1, "/a").unwrap().content, "new");
    assert_eq!(s.get(1, "/a").unwrap().last_sync, 50);
    assert_eq!(s.get(1, "/b").unwrap().content, "b2");
    assert_eq!(s.get(1, "/b").unwrap().id, Some(2));
    assert_eq!(s.get(1, "/b").unwrap().hash, digest("b2"));
    assert!(s.upsert_batch_at(&Vec::new(), 60).is_ok());
    assert_eq!(s.len(), 2);
}

#[test]
fn update_moves_and_rewrites() {
    let mut s = FileStore::new();
    s.upsert_at(1, "/a".to_string(), "a".to_string(), 1).unwrap();
    s.upsert_at(1, "/b".to_string(), "b".to_string(), 2).unwrap();
    let moved = s.update_at(1, "/a", "/c".to_string(), "c".to_string(), 3).unwrap().unwrap();
    assert_eq!(moved.id, Some(1));
    assert_eq!(moved.path, "/c");
    assert_eq!(moved.hash, digest("c"));
    assert_eq!(moved.last_sync, 3);
    assert!(s.get(1, "/a").is_none());
    assert_eq!(s.get(1, "/c").unwrap().content, "c");
    let same = s.update_at(1, "/c", "/c".to_string(), "again".to_string(), 4).unwrap().unwrap();
    assert_eq!(same.content, "again");
    assert!(s.update_at(1, "/missing", "/x".to_string(), "x".to_string(), 5).unwrap().is_none());
    assert!(matches!(
        s.update_at(1, "/c", "/b".to_string(), "x".to_string(), 6),
        Err(AppError::Persistence(_))
    ));
    assert_eq!(s.get(1, "/c").unwrap().content, "again");
    assert_eq!(s.get(1, "/b").unwrap().content, "b");
    assert_eq!(s.len(), 2);
}

#[test]
fn stamps_rise_on_every_rewrite() {
    let mut s = FileStore::new();
    let a = s.upsert_at(1, "/a".to_string(), "one".to_string(), 1000).unwrap();
    assert_eq!(a.last_sync, 1000);
    let b = s.upsert_at(1, "/a".to_string(), "two".to_string(), 1000).unwrap();
    assert_eq!(b.last_sync, 1001);
    let c = s.upsert_at(1, "/a".to_string(), "three".to_string(), 5).unwrap();
    assert_eq!(c.last_sync, 1002);
    assert_eq!(c.id, Some(1));
    let listed = s.list_changed_since(1, 1001);
    assert_eq!(listed.len(), 1);
    assert_eq!(listed[0].content, "three");
    let d = s.upsert_at(1, "/a".to_string(), "four".to_string(), 2000).unwrap();
    assert_eq!(d.last_sync, 2000);
    let other = s.upsert_at(1, "/b".to_string(), "b".to_string(), 7).unwrap();
    assert_eq!(other.last_sync, 7);
    assert_eq!(s.len(), 2);
}

#[test]
fn quick_rewrites_by_the_clock_still_rise() {
    let mut s = FileStore::new();
    let mut last: i64 = s.upsert(1, "/a".to_string(), "0".to_string()).unwrap().last_sync;
    let mut i: u32 = 1;
    while i < 50 {
        let f = s.upsert(1, "/a".to_string(), i.to_string()).unwrap();
        assert!(f.last_sync > last);
        last = f.last_sync;
        i += 1;
    }
    assert_eq!(s.len(), 1);
}

#[test]
fn batch_stamps_rise_within_the_batch() {
    let mut s = FileStore::new();
    s.upsert_at(1, "/a".to_string(), "old".to_string(), 80).unwrap();
    let writes = vec![
        FileWrite { vault_id: 1, path: "/a".to_string(), content: "new".to_string() },
        FileWrite { vault_id: 1, path: "/b".to_string(), content: "b1".to_string() },
        FileWrite { vault_id: 1, path: "/b".to_string(), content: "b2".to_string() },
    ];
    assert!(s.upsert_batch_at(&writes, 50).is_ok());
    assert_eq!(s.get(1, "/a").unwrap().last_sync, 81);
    assert_eq!(s.get(1, "/b").unwrap().last_sync, 51);
    assert_eq!(s.get(1, "/b").unwrap().content, "b2");
}

#[test]
fn update_stamps_above_the_earlier_one() {
    let mut s = FileStore::new();
    s.upsert_at(1, "/a".to_string(), "a".to_string(), 10).unwrap();
    let first = s.update_at(1, "/a", "/a".to_string(), "b".to_string(), 10).unwrap().unwrap();
    assert_eq!(first.last_sync, 11);
    let second = s.update_at(1, "/a", "/c".to_string(), "c".to_string(), 3).unwrap().unwrap();
    assert_eq!(second.last_sync, 12);
    let third = s.update_at(1, "/c", "/c".to_string(), "d".to_string(), 40).unwrap().unwrap();
    assert_eq!(third.last_sync, 40);
}

#[test]
fn last_stamp_cannot_be_rewritten() {
    let mut s = FileStore::new();
    let f = s.upsert_at(1, "/a".to_string(), "a".to_string(), i64::MAX).unwrap();
    assert_eq!(f.last_sync, i64::MAX);
    assert!(matches!(
        s.upsert_at(1, "/a".to_string(), "b".to_string(), 5),
        Err(AppError::Persistence(_))
    ));
    assert!(matches!(
        s.update_at(1, "/a", "/b".to_string(), "b".to_string(), 5),
        Err(AppError::Persistence(_))
    ));
    let writes = vec![
        FileWrite { vault_id: 1, path: "/z".to_string(), content: "z".to_string() },
        FileWrite { vault_id: 1, path: "/a".to_string(), content: "b".to_string() },
    ];
    assert!(matches!(s.upsert_batch_at(&writes, 5), Err(AppError::Persistence(_))));
    assert!(matches!(s.upsert_batch(&writes), Err(AppError::Persistence(_))));
    assert_eq!(s.len(), 1);
    assert_eq!(s.get(1, "/a").unwrap().content, "a");
    assert!(s.get(1, "/z").is_none());
    assert!(s.upsert_at(1, "/z".to_string(), "z".to_string(), 5).is_ok());
}

#[test]
fn records_are_read_back_under_their_identifiers() {
    let mut s = FileStore::new();
    assert!(s.restore(4, 2, "/a".to_string(), "hello".to_string(), 900));
    assert!(s.restore(2, 2, "/b".to_string(), "b".to_string(), 100));
    let a = s.get(2, "/a").unwrap();
    assert_eq!(a.id, Some(4));
    assert_eq!(a.hash, "a430d84680aabd0b");
    assert_eq!(a.last_sync, 900);
    assert_eq!(s.get(2, "/b").unwrap().id, Some(2));
    assert!(!s.restore(4, 2, "/c".to_string(), "c".to_string(), 1));
    assert!(!s.restore(5, 2, "/a".to_string(), "c".to_string(), 1));
    assert!(!s.restore(0, 2, "/c".to_string(), "c".to_string(), 1));
    assert!(!s.restore(-1, 2, "/c".to_string(), "c".to_string(), 1));
    assert!(!s.restore(i32::MAX, 2, "/c".to_string(), "c".to_string(), 1));
    assert_eq!(s.len(), 2);
    let fresh = s.upsert_at(2, "/c".to_string(), "c".to_string(), 1000).unwrap();
    assert_eq!(fresh.id, Some(5));
    let again = s.upsert_at(2, "/a".to_string(), "again".to_string(), 5).unwrap();
    assert_eq!(again.id, Some(4));
    assert_eq!(again.last_sync, 901);
}

#[test]
fn a_copy_of_the_table_is_apart_from_it() {
    let mut s = FileStore::new();
    s.upsert_at(1, "/a".to_string(), "a".to_string(), 10).unwrap();
    let kept = s.duplicate();
    s.upsert_at(1, "/a".to_string(), "b".to_string(), 20).unwrap();
    s.upsert_at(1, "/b".to_string(), "b".to_string(), 20).unwrap();
    assert_eq!(kept.len(), 1);
    assert_eq!(kept.get(1, "/a").unwrap().content, "a");
    assert_eq!(kept.get(1, "/a").unwrap().last_sync, 10);
    let mut s = kept;
    assert_eq!(s.upsert_at(1, "/b".to_string(), "b".to_string(), 30).unwrap().id, Some(2));
}

#[test]
fn batch_returns_the_records_as_stored() {
    let mut s = FileStore::new();
    s.upsert_at(1, "/a".to_string(), "old".to_string(), 80).unwrap();
    let writes = vec![
        FileWrite { vault_id: 1, path: "/b".to_string(), content: "b1".to_string() },
        FileWrite { vault_id: 1, path: "/a".to_string(), content: "new".to_string() },
        FileWrite { vault_id: 1, path: "/b".to_string(), content: "b2".to_string() },
    ];
    let records = s.upsert_batch_at(&writes, 50).unwrap();
    assert_eq!(records.len(), 3);
    assert_eq!(records[0].path, "/b");
    assert_eq!(records[0].content, "b2");
    assert_eq!(records[0].last_sync, 51);
    assert_eq!(records[0].id, Some(2));
    assert_eq!(records[1].path, "/a");
    assert_eq!(records[1].content, "new");
    assert_eq!(records[1].last_sync, 81);
    assert_eq!(records[1].id, Some(1));
    assert_eq!(records[2].content, "b2");
    assert_eq!(records[2].hash, digest("b2"));
    assert!(s.upsert_batch_at(&Vec::new(), 60).unwrap().is_empty());
    let (now, records) = s.upsert_batch(&writes).unwrap();
    assert_eq!(records.len(), 3);
    assert!(records[1].last_sync >= now);
}
