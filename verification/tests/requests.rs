use blobcache::cache::{Database, EngineError, GetResult};
use blobcache::config::StoreProfile;
use blobcache::dispatch::{
    delete_from_cache, extract_key, fetch_response, get_file_from_cache, handle_request,
    not_found, save_to_cache, CacheResponse, RequestKind,
};

fn fresh() -> Database {
    Database::open("./database", StoreProfile::recommended())
}

#[test]
fn key_is_the_last_non_empty_path_segment() {
    assert_eq!(extract_key("/var/www/html/500KB.html").unwrap(), "500KB.html");
    assert_eq!(extract_key("/a.bin").unwrap(), "a.bin");
    assert_eq!(extract_key("plain").unwrap(), "plain");
    // trailing separators still name the component before them
    assert_eq!(extract_key("/dir/").unwrap(), "dir");
    assert_eq!(extract_key("/a/b//").unwrap(), "b");
}

#[test]
fn path_without_segment_is_rejected() {
    assert!(extract_key("/").is_none());
    assert!(extract_key("").is_none());
    assert!(extract_key("//").is_none());
    assert!(extract_key("///").is_none());
}

#[test]
fn status_codes_cover_the_taxonomy() {
    assert_eq!(not_found().status_code(), 404);
    assert_eq!(CacheResponse::BadRequest.status_code(), 400);
    let failure = CacheResponse::EngineFailure(String::from("disk on fire"));
    assert_eq!(failure.status_code(), 500);
}

#[test]
fn engine_failure_maps_to_server_error() {
    let outcome = GetResult::EngineError(EngineError { message: String::from("io failure") });
    match fetch_response(outcome, 4) {
        CacheResponse::EngineFailure(m) => assert_eq!(m, "io failure"),
        _ => panic!("an engine failure must surface as the server error"),
    }
}

#[test]
fn fetch_miss_has_fixed_not_found_body() {
    let db = fresh();
    match get_file_from_cache(&db, "absent.bin", 4) {
        CacheResponse::NotFound(b) => assert_eq!(b, "Not Found"),
        _ => panic!("expected the not-found response"),
    }
}

#[test]
fn store_confirms_naming_the_key() {
    let mut db = fresh();
    let body = b"value bytes".to_vec();
    match save_to_cache(&mut db, "b.html", &body) {
        CacheResponse::Stored(m) => assert_eq!(m, "file successfully saved! b.html"),
        _ => panic!("expected the stored confirmation"),
    }
}

#[test]
fn remove_confirms_naming_the_key() {
    let mut db = fresh();
    match delete_from_cache(&mut db, "b.html") {
        CacheResponse::Removed(m) => assert_eq!(m, "file successfully deleted! b.html"),
        _ => panic!("expected the removed confirmation"),
    }
}

#[test]
fn unsupported_kind_is_not_found() {
    let mut db = fresh();
    let body = Vec::new();
    let r = handle_request(&mut db, RequestKind::Unsupported, "/any", &body, 4);
    assert_eq!(r.status_code(), 404);
}

#[test]
fn unusable_path_is_bad_request() {
    let mut db = fresh();
    let body = b"data".to_vec();
    let r = handle_request(&mut db, RequestKind::Store, "/", &body, 4);
    assert!(matches!(r, CacheResponse::BadRequest));
    assert_eq!(r.status_code(), 400);
}

#[test]
fn trailing_separator_stores_under_the_segment_before_it() {
    let mut db = fresh();
    let body = b"data".to_vec();
    let r = handle_request(&mut db, RequestKind::Store, "/dir/", &body, 4);
    assert_eq!(r.status_code(), 200);
    match db.get(&b"dir".to_vec()) {
        GetResult::Found(v) => assert_eq!(v, body),
        _ => panic!("expected the value under the last non-empty segment"),
    }
}

#[test]
fn scenario_warm_load_then_fetch() {
    // warm-load stores a file-sized value; retrieval declares its exact length
    let mut db = fresh();
    let content = vec![b'x'; 500 * 1024];
    let r = handle_request(&mut db, RequestKind::Store, "/var/www/html/500KB.html", &content, 64 * 1024);
    assert_eq!(r.status_code(), 200);
    let r = handle_request(&mut db, RequestKind::Fetch, "/500KB.html", &Vec::new(), 64 * 1024);
    match r {
        CacheResponse::Payload(mut reader) => {
            assert_eq!(reader.total_len(), 500 * 1024);
            let chunks = reader.read_to_end();
            let rebuilt: Vec<u8> = chunks.concat();
            assert_eq!(rebuilt, content);
        }
        _ => panic!("expected the streamed payload"),
    }
}

#[test]
fn scenario_large_value_streams_in_three_chunks() {
    let mb = 1024 * 1024;
    let mut db = fresh();
    let content = vec![0x5au8; 25 * mb];
    let r = handle_request(&mut db, RequestKind::Store, "/a.bin", &content, 10 * mb);
    assert_eq!(r.status_code(), 200);
    let r = handle_request(&mut db, RequestKind::Fetch, "/a.bin", &Vec::new(), 10 * mb);
    match r {
        CacheResponse::Payload(mut reader) => {
            assert_eq!(reader.total_len(), 25 * mb);
            let chunks = reader.read_to_end();
            assert_eq!(chunks.len(), 3);
            assert_eq!(chunks[0].len(), 10 * mb);
            assert_eq!(chunks[1].len(), 10 * mb);
            assert_eq!(chunks[2].len(), 5 * mb);
            assert_eq!(chunks.iter().map(Vec::len).sum::<usize>(), 25 * mb);
        }
        _ => panic!("expected the streamed payload"),
    }
}

#[test]
fn scenario_delete_then_fetch_is_not_found() {
    let mut db = fresh();
    let content = b"bytes".to_vec();
    handle_request(&mut db, RequestKind::Store, "/a.bin", &content, 4);
    let r = handle_request(&mut db, RequestKind::Remove, "/a.bin", &Vec::new(), 4);
    assert_eq!(r.status_code(), 200);
    let r = handle_request(&mut db, RequestKind::Fetch, "/a.bin", &Vec::new(), 4);
    match &r {
        CacheResponse::NotFound(b) => assert_eq!(b, "Not Found"),
        CacheResponse::EngineFailure(_) => panic!("a miss must not be an engine error"),
        _ => panic!("expected the not-found response"),
    }
    assert_eq!(r.status_code(), 404);
}

#[test]
fn scenario_empty_body_round_trip() {
    let mut db = fresh();
    let r = handle_request(&mut db, RequestKind::Store, "/empty", &Vec::new(), 4);
    assert_eq!(r.status_code(), 200);
    let r = handle_request(&mut db, RequestKind::Fetch, "/empty", &Vec::new(), 4);
    assert_eq!(r.declared_length(), Some(0));
    match r {
        CacheResponse::Payload(mut reader) => {
            assert_eq!(reader.total_len(), 0);
            let chunks = reader.read_to_end();
            assert_eq!(chunks.len(), 0);
        }
        _ => panic!("expected a valid empty payload"),
    }
}

#[test]
fn declared_length_matches_the_value() {
    let mut db = fresh();
    let content = vec![7u8; 123];
    handle_request(&mut db, RequestKind::Store, "/x", &content, 10);
    let r = handle_request(&mut db, RequestKind::Fetch, "/x", &Vec::new(), 10);
    assert_eq!(r.declared_length(), Some(123));
    match r {
        CacheResponse::Payload(_) => {}
        _ => panic!("expected the streamed payload"),
    }
    let miss = handle_request(&mut db, RequestKind::Fetch, "/y", &Vec::new(), 10);
    assert_eq!(miss.declared_length(), None);
}

#[test]
fn fetch_does_not_change_the_store() {
    let mut db = fresh();
    let content = b"unchanged".to_vec();
    handle_request(&mut db, RequestKind::Store, "/k", &content, 4);
    handle_request(&mut db, RequestKind::Fetch, "/k", &Vec::new(), 4);
    match db.get(&b"k".to_vec()) {
        GetResult::Found(v) => assert_eq!(v, content),
        _ => panic!("fetch must leave the entry in place"),
    }
}
