use blobcache::cache::{DBOperations, Database, GetResult};
use blobcache::config::StoreProfile;

fn fresh() -> Database {
    Database::open("./database", StoreProfile::recommended())
}

#[test]
fn put_get_round_trip() {
    let mut db = fresh();
    let key = b"alpha".to_vec();
    let value = b"some blob content".to_vec();
    db.put(&key, &value).unwrap();
    match db.get(&key) {
        GetResult::Found(v) => assert_eq!(v, value),
        _ => panic!("expected the stored value"),
    }
}

#[test]
fn put_get_round_trip_empty_value() {
    let mut db = fresh();
    let key = b"empty".to_vec();
    let value: Vec<u8> = Vec::new();
    db.put(&key, &value).unwrap();
    match db.get(&key) {
        GetResult::Found(v) => assert_eq!(v.len(), 0),
        _ => panic!("expected the stored empty value"),
    }
}

#[test]
fn put_get_round_trip_large_value() {
    let mut db = fresh();
    let key = b"big".to_vec();
    let mut value = Vec::new();
    for i in 0..100_000u32 {
        value.push((i % 251) as u8);
    }
    db.put(&key, &value).unwrap();
    match db.get(&key) {
        GetResult::Found(v) => assert_eq!(v, value),
        _ => panic!("expected the stored value"),
    }
}

#[test]
fn get_absent_is_not_found_not_engine_error() {
    let db = fresh();
    match db.get(&b"never-written".to_vec()) {
        GetResult::NotFound => {}
        GetResult::Found(_) => panic!("nothing was stored"),
        GetResult::EngineError(_) => panic!("a miss must not be an engine error"),
    }
}

#[test]
fn delete_absent_key_succeeds() {
    let mut db = fresh();
    let key = b"ghost".to_vec();
    assert!(db.delete(&key).is_ok());
    match db.get(&key) {
        GetResult::NotFound => {}
        _ => panic!("expected a miss after deleting an absent key"),
    }
}

#[test]
fn delete_then_get_is_not_found() {
    let mut db = fresh();
    let key = b"gone".to_vec();
    db.put(&key, &b"payload".to_vec()).unwrap();
    db.delete(&key).unwrap();
    match db.get(&key) {
        GetResult::NotFound => {}
        _ => panic!("expected a miss after delete"),
    }
    // deleting again still succeeds
    assert!(db.delete(&key).is_ok());
}

#[test]
fn overwrite_latest_wins() {
    let mut db = fresh();
    let key = b"k".to_vec();
    db.put(&key, &b"first".to_vec()).unwrap();
    db.put(&key, &b"second".to_vec()).unwrap();
    match db.get(&key) {
        GetResult::Found(v) => assert_eq!(v, b"second".to_vec()),
        _ => panic!("expected the overwritten value"),
    }
}

#[test]
fn repeated_reads_agree() {
    let mut db = fresh();
    let key = b"stable".to_vec();
    db.put(&key, &b"same bytes".to_vec()).unwrap();
    let first = match db.get(&key) {
        GetResult::Found(v) => v,
        _ => panic!("expected the value"),
    };
    let second = match db.get(&key) {
        GetResult::Found(v) => v,
        _ => panic!("expected the value"),
    };
    assert_eq!(first, second);
}

#[test]
fn contains_key_probe_is_exact() {
    let mut db = fresh();
    let key = b"present".to_vec();
    assert!(!db.contains_key(&key));
    db.put(&key, &b"v".to_vec()).unwrap();
    assert!(db.contains_key(&key));
    db.delete(&key).unwrap();
    assert!(!db.contains_key(&key));
}

#[test]
fn keys_are_independent() {
    let mut db = fresh();
    db.put(&b"a".to_vec(), &b"1".to_vec()).unwrap();
    db.put(&b"b".to_vec(), &b"2".to_vec()).unwrap();
    db.delete(&b"a".to_vec()).unwrap();
    match db.get(&b"b".to_vec()) {
        GetResult::Found(v) => assert_eq!(v, b"2".to_vec()),
        _ => panic!("removing one key must not touch another"),
    }
}

#[test]
fn trait_init_save_find_round_trip() {
    let mut db = Database::init("./database");
    assert!(db.save("name.html", "<html>content</html>"));
    assert_eq!(db.find("name.html"), Some(String::from("<html>content</html>")));
}

#[test]
fn trait_find_missing_is_none() {
    let db = Database::init("./database");
    assert_eq!(db.find("missing"), None);
}

#[test]
fn trait_delete_removes_entry() {
    let mut db = Database::init("./database");
    assert!(db.save("doomed", "bytes"));
    assert!(DBOperations::delete(&mut db, "doomed"));
    assert_eq!(db.find("doomed"), None);
}

#[test]
fn trait_find_undecodable_value_is_none() {
    let mut db = Database::init("./database");
    let key = b"binary".to_vec();
    let value = vec![0xffu8, 0xfe, 0x00];
    db.put(&key, &value).unwrap();
    // the bytes are present ...
    match db.get(&key) {
        GetResult::Found(v) => assert_eq!(v, value),
        _ => panic!("expected the stored bytes"),
    }
    // ... but they are not UTF-8 text, so the text view misses
    assert_eq!(db.find("binary"), None);
}

#[test]
fn open_records_path_and_profile() {
    let db = fresh();
    assert_eq!(db.path().as_str(), "./database");
    let p = db.profile();
    assert!(p.create_if_missing);
    assert!(p.direct_reads);
    assert!(p.direct_io_for_flush_and_compaction);
    assert_eq!(p.max_background_jobs, 2);
    assert_eq!(p.compaction_readahead_bytes, 2 * 1024 * 1024);
    assert_eq!(p.write_buffer_max_bytes, 1024 * 1024);
    assert!(!p.read_fill_cache);
    assert_eq!(p.read_readahead_bytes, 2 * 1024 * 1024);
}
