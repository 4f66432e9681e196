use blobcache::index::EntriesIndex;
use blobcache::protocol::{Request, Response};
use blobcache::server::Server;
use blobcache::store::ContentStore;

fn new_server() -> Server {
    let db = sled::Config::new().temporary(true).open().unwrap();
    Server::new(EntriesIndex::new(db), ContentStore::new())
}

fn put(server: &mut Server, now: u64, key: &[u8], payload: &[u8]) -> Response {
    server.handle(now, &Request::Put { key: key.to_vec(), payload: payload.to_vec() })
}

fn get(server: &mut Server, now: u64, key: &[u8]) -> Response {
    server.handle(now, &Request::Get { key: key.to_vec() })
}

#[test]
fn put_then_get_serves_the_payload() {
    let mut server = new_server();
    match put(&mut server, 10, b"k1", b"hello") {
        Response::Success { metadata: Some(m), payload: None } => {
            assert_eq!(m.size_bytes, 5);
            assert_eq!(m.created_at, 10);
            assert_eq!(m.last_accessed_at, 10);
        }
        other => panic!("unexpected response: {:?}", other),
    }
    match get(&mut server, 11, b"k1") {
        Response::Success { metadata: Some(m), payload: Some(p) } => {
            assert_eq!(p, b"hello".to_vec());
            assert_eq!(m.size_bytes, 5);
            assert_eq!(m.created_at, 10);
            assert_eq!(m.last_accessed_at, 11);
        }
        other => panic!("unexpected response: {:?}", other),
    }
}

#[test]
fn get_of_a_missing_key_is_a_miss() {
    let mut server = new_server();
    assert_eq!(get(&mut server, 1, b"missing"), Response::Miss);
}

#[test]
fn second_put_wins_and_frees_the_first_blob() {
    let mut server = new_server();
    assert!(matches!(put(&mut server, 1, b"k1", b"hello"), Response::Success { .. }));
    assert!(matches!(put(&mut server, 2, b"k1", b"world"), Response::Success { .. }));
    match get(&mut server, 3, b"k1") {
        Response::Success { payload: Some(p), .. } => assert_eq!(p, b"world".to_vec()),
        other => panic!("unexpected response: {:?}", other),
    }
    // The blob of the overwritten entry is a reclamation candidate: it
    // survives until a reclamation pass, and that pass removes it.
    assert_eq!(server.store.blob_count(), 2);
    server.reclaim().unwrap();
    assert_eq!(server.store.blob_count(), 1);
    match get(&mut server, 4, b"k1") {
        Response::Success { payload: Some(p), .. } => assert_eq!(p, b"world".to_vec()),
        other => panic!("unexpected response: {:?}", other),
    }
}

#[test]
fn identical_content_under_two_keys_is_stored_once() {
    let mut server = new_server();
    let h1 = match put(&mut server, 1, b"k1", b"shared") {
        Response::Success { metadata: Some(m), .. } => m.content_hash,
        other => panic!("unexpected response: {:?}", other),
    };
    let h2 = match put(&mut server, 2, b"k2", b"shared") {
        Response::Success { metadata: Some(m), .. } => m.content_hash,
        other => panic!("unexpected response: {:?}", other),
    };
    assert_eq!(h1, h2);
    assert_eq!(server.store.blob_count(), 1);
    match get(&mut server, 3, b"k1") {
        Response::Success { payload: Some(p), .. } => assert_eq!(p, b"shared".to_vec()),
        other => panic!("unexpected response: {:?}", other),
    }
    match get(&mut server, 3, b"k2") {
        Response::Success { payload: Some(p), .. } => assert_eq!(p, b"shared".to_vec()),
        other => panic!("unexpected response: {:?}", other),
    }
}

#[test]
fn evicted_key_is_missed() {
    let mut server = new_server();
    assert!(matches!(put(&mut server, 1, b"k1", b"hello"), Response::Success { .. }));
    assert_eq!(
        server.handle(2, &Request::Evict { key: b"k1".to_vec() }),
        Response::Success { metadata: None, payload: None }
    );
    assert_eq!(get(&mut server, 3, b"k1"), Response::Miss);
}

#[test]
fn evicting_an_absent_key_is_a_miss() {
    let mut server = new_server();
    assert_eq!(server.handle(1, &Request::Evict { key: b"nope".to_vec() }), Response::Miss);
}

#[test]
fn stat_reports_metadata_without_the_blob() {
    let mut server = new_server();
    assert!(matches!(put(&mut server, 7, b"k1", b"abc"), Response::Success { .. }));
    match server.handle(9, &Request::Stat { key: b"k1".to_vec() }) {
        Response::Success { metadata: Some(m), payload: None } => {
            assert_eq!(m.size_bytes, 3);
            assert_eq!(m.created_at, 7);
            assert_eq!(m.last_accessed_at, 9);
        }
        other => panic!("unexpected response: {:?}", other),
    }
    assert_eq!(server.handle(9, &Request::Stat { key: b"nope".to_vec() }), Response::Miss);
}

#[test]
fn dangling_entry_is_reported_and_repaired() {
    let mut server = new_server();
    // An entry whose blob is absent from the content store: the shape a
    // damaged installation leaves behind.
    let meta = blobcache::codec::EntryMetadata {
        content_hash: 12345,
        size_bytes: 1,
        created_at: 1,
        last_accessed_at: 1,
    };
    server.entries.insert(&b"k1".to_vec(), &meta).unwrap();
    assert_eq!(get(&mut server, 2, b"k1"), Response::Inconsistent);
    // The dangling entry was removed with the report.
    assert_eq!(get(&mut server, 3, b"k1"), Response::Miss);
}

#[test]
fn reclaim_keeps_every_referenced_blob() {
    let mut server = new_server();
    assert!(matches!(put(&mut server, 1, b"a", b"one"), Response::Success { .. }));
    assert!(matches!(put(&mut server, 1, b"b", b"two"), Response::Success { .. }));
    assert_eq!(server.store.blob_count(), 2);
    server.reclaim().unwrap();
    assert_eq!(server.store.blob_count(), 2);
    match get(&mut server, 2, b"a") {
        Response::Success { payload: Some(p), .. } => assert_eq!(p, b"one".to_vec()),
        other => panic!("unexpected response: {:?}", other),
    }
}

#[test]
fn datagram_round_trip_through_the_server() {
    let mut server = new_server();
    let put_wire = blobcache::protocol::encode_request(&Request::Put {
        key: b"k1".to_vec(),
        payload: b"hello".to_vec(),
    });
    let reply = server.handle_datagram(5, &put_wire);
    match blobcache::protocol::decode_response(&reply) {
        Some(Response::Success { metadata: Some(m), payload: None }) => {
            assert_eq!(m.size_bytes, 5);
        }
        other => panic!("unexpected response: {:?}", other),
    }
    let get_wire = blobcache::protocol::encode_request(&Request::Get { key: b"k1".to_vec() });
    let reply = server.handle_datagram(6, &get_wire);
    match blobcache::protocol::decode_response(&reply) {
        Some(Response::Success { payload: Some(p), .. }) => assert_eq!(p, b"hello".to_vec()),
        other => panic!("unexpected response: {:?}", other),
    }
}

#[test]
fn a_malformed_datagram_is_answered_malformed() {
    let mut server = new_server();
    for bad in [
        Vec::new(),
        vec![9u8],
        vec![1u8, 2, 3],
        vec![1u8, 255, 255, 255, 255, 255, 255, 255, 255],
        vec![1u8, 2, 0, 0, 0, 0, 0, 0, 0, 107],
    ] {
        let reply = server.handle_datagram(1, &bad);
        assert_eq!(
            blobcache::protocol::decode_response(&reply),
            Some(Response::Malformed),
            "datagram {:?} should be malformed",
            bad
        );
    }
    // Trailing bytes after a Get key are rejected rather than guessed at.
    let mut wire = blobcache::protocol::encode_request(&Request::Get { key: b"k".to_vec() });
    wire.push(0);
    let reply = server.handle_datagram(1, &wire);
    assert_eq!(blobcache::protocol::decode_response(&reply), Some(Response::Malformed));
}
