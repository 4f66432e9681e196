use blobcache::builder::{Builder, StartupError};
use blobcache::codec::{encode_meta, parse_meta, EntryMetadata};
use blobcache::hash::content_hash;
use blobcache::protocol::{
    decode_request, decode_response, encode_request, encode_response, Request, Response,
};
use blobcache::shutdown::Coordinator;
use blobcache::store::ContentStore;

#[test]
fn metadata_survives_its_encoding() {
    let m = EntryMetadata {
        content_hash: 0x0123_4567_89ab_cdef,
        size_bytes: 42,
        created_at: 1_700_000_000,
        last_accessed_at: u64::MAX,
    };
    let bytes = encode_meta(&m);
    assert_eq!(bytes.len(), 32);
    assert_eq!(parse_meta(&bytes), Some(m));
    let mut longer = bytes.clone();
    longer.push(0);
    assert_eq!(parse_meta(&longer), None);
}

#[test]
fn requests_survive_their_encoding() {
    let reqs = [
        Request::Get { key: b"some-key".to_vec() },
        Request::Put { key: b"k".to_vec(), payload: b"payload bytes".to_vec() },
        Request::Put { key: Vec::new(), payload: Vec::new() },
        Request::Stat { key: b"s".to_vec() },
        Request::Evict { key: b"gone".to_vec() },
    ];
    for req in reqs {
        let wire = encode_request(&req);
        assert_eq!(decode_request(&wire), Some(req));
    }
}

#[test]
fn responses_survive_their_encoding() {
    let m = EntryMetadata { content_hash: 7, size_bytes: 1, created_at: 2, last_accessed_at: 3 };
    let resps = [
        Response::Success { metadata: None, payload: None },
        Response::Success { metadata: Some(m), payload: None },
        Response::Success { metadata: None, payload: Some(b"data".to_vec()) },
        Response::Success { metadata: Some(m), payload: Some(Vec::new()) },
        Response::Success { metadata: Some(m), payload: Some(b"blob".to_vec()) },
        Response::Miss,
        Response::Malformed,
        Response::Inconsistent,
        Response::StoreError,
    ];
    for resp in resps {
        let wire = encode_response(&resp);
        assert_eq!(decode_response(&wire), Some(resp));
    }
}

#[test]
fn truncated_or_padded_wire_bytes_are_rejected() {
    assert_eq!(decode_request(&Vec::new()), None);
    assert_eq!(decode_request(&vec![0u8; 8]), None);
    // A store request cut short in transport must not parse: the
    // length fields have to account for the datagram exactly.
    let wire = encode_request(&Request::Put { key: b"k".to_vec(), payload: b"hello".to_vec() });
    let mut truncated = wire.clone();
    truncated.pop();
    assert_eq!(decode_request(&truncated), None);
    let mut padded = wire.clone();
    padded.push(0);
    assert_eq!(decode_request(&padded), None);
    assert_eq!(decode_response(&Vec::new()), None);
    assert_eq!(decode_response(&vec![1u8, 0]), None);
    assert_eq!(decode_response(&vec![0u8]), None);
    assert_eq!(decode_response(&vec![0u8, 9]), None);
    assert_eq!(decode_response(&vec![5u8]), None);
}

#[test]
fn content_hash_depends_on_content_alone() {
    let a = content_hash(&b"hello".to_vec());
    let b = content_hash(&b"hello".to_vec());
    let c = content_hash(&b"hello!".to_vec());
    assert_eq!(a, b);
    assert_ne!(a, c);
    assert_ne!(content_hash(&Vec::new()), 0);
}

#[test]
fn the_store_deduplicates_and_deletes() {
    let mut store = ContentStore::new();
    assert_eq!(store.blob_count(), 0);
    let h1 = store.put(b"abc".to_vec());
    let h2 = store.put(b"abc".to_vec());
    assert_eq!(h1, h2);
    assert_eq!(store.blob_count(), 1);
    assert!(store.contains(h1));
    assert_eq!(store.get(h1).map(|b| b.clone()), Some(b"abc".to_vec()));
    assert!(store.delete(h1));
    assert!(!store.delete(h1));
    assert!(store.get(h1).is_none());
    assert_eq!(store.blob_count(), 0);
}

#[test]
fn the_store_sweep_keeps_only_referenced_blobs() {
    let mut store = ContentStore::new();
    let h1 = store.put(b"one".to_vec());
    let h2 = store.put(b"two".to_vec());
    let h3 = store.put(b"three".to_vec());
    store.sweep(&vec![h1, h3]);
    assert!(store.contains(h1));
    assert!(!store.contains(h2));
    assert!(store.contains(h3));
    assert_eq!(store.blob_count(), 2);
}

#[test]
fn staged_content_is_invisible_until_published() {
    let mut store = ContentStore::new();
    let staged = ContentStore::stage(b"draft".to_vec());
    // The write happened in full, but nothing was published: a crash
    // here leaves the visible contents empty.
    assert_eq!(store.blob_count(), 0);
    assert!(!store.contains(staged.hash()));
    let h = store.publish(staged);
    assert!(store.contains(h));
    assert_eq!(store.get(h).map(|b| b.clone()), Some(b"draft".to_vec()));
}

#[test]
fn the_entries_db_path_joins_the_cache_dir() {
    let b = Builder::new(b"/var/cache/daemon".to_vec(), b"/var/data".to_vec(), b"/run/d.sock".to_vec());
    assert_eq!(b.entries_db_path(), b"/var/cache/daemon/entries".to_vec());
}

#[test]
fn the_socket_parent_is_the_enclosing_directory() {
    let parent = |socket: &[u8]| {
        Builder::new(Vec::new(), Vec::new(), socket.to_vec()).socket_parent()
    };
    assert_eq!(parent(b"/run/cache/d.sock"), Ok(b"/run/cache".to_vec()));
    assert_eq!(parent(b"/d.sock"), Ok(b"/".to_vec()));
    assert_eq!(parent(b"//d.sock"), Ok(b"/".to_vec()));
    assert_eq!(parent(b"a/b"), Ok(b"a".to_vec()));
    assert_eq!(parent(b"a//b"), Ok(b"a".to_vec()));
    // Trailing separators name the same location.
    assert_eq!(parent(b"/run/cache/"), Ok(b"/run".to_vec()));
    // A bare filename has the empty parent: the working directory,
    // where nothing needs to be created.
    assert_eq!(parent(b"relative.sock"), Ok(Vec::new()));
    // Only the empty path and the root name no parent at all.
    assert_eq!(parent(b""), Err(StartupError::NoSocketPathParent));
    assert_eq!(parent(b"/"), Err(StartupError::NoSocketPathParent));
    assert_eq!(parent(b"//"), Err(StartupError::NoSocketPathParent));
}

#[test]
fn the_stop_flag_gates_dispatch_but_not_completion() {
    let mut coord = Coordinator::new();
    assert!(coord.drained());
    assert!(coord.try_dispatch());
    assert!(coord.try_dispatch());
    assert!(!coord.drained());
    coord.request_stop();
    assert!(coord.is_stopping());
    // No new work after the flag is set...
    assert!(!coord.try_dispatch());
    // ...but work already dispatched still completes and is drained.
    coord.finish();
    coord.finish();
    assert!(coord.drained());
    // Setting the flag again is a no-op.
    coord.request_stop();
    assert!(coord.is_stopping());
    assert!(!coord.try_dispatch());
}
