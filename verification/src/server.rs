use vstd::prelude::*;
use crate::codec::{encode_meta_spec, lemma_meta_round_trip, parse_meta_spec, EntryMetadata};
use crate::hash::fnv64;
use crate::index::{touched, EntriesIndex, IndexError, Lookup};
use crate::protocol::{
    bytes_eq, copy_range, decode_request, encode_response, encode_response_spec,
    parse_request_spec, Request, RequestModel, Response, ResponseModel,
};
use crate::store::{put_effect, ContentStore};

verus! {

/// The storage half of the daemon: the entries index and the content
/// store that every request is executed against.
pub struct Server {
    pub entries: EntriesIndex,
    pub store: ContentStore,
}

/// The metadata written by a store of `payload` at time `now`.
pub open spec fn fresh_meta(payload: Seq<u8>, now: u64) -> EntryMetadata {
    EntryMetadata {
        content_hash: fnv64(payload),
        size_bytes: payload.len() as u64,
        created_at: now,
        last_accessed_at: now,
    }
}

/// No dangling metadata: every entry visible in the index decodes and
/// refers to a blob present in the content store.
pub open spec fn consistent(entries: Map<Seq<u8>, Seq<u8>>, store: Map<u64, Seq<u8>>) -> bool {
    forall|k: Seq<u8>| #[trigger]
        entries.contains_key(k) ==> {
            &&& parse_meta_spec(entries[k]) is Some
            &&& store.contains_key(parse_meta_spec(entries[k]).unwrap().content_hash)
        }
}

/// Everything request handling promises: how the response and the new
/// index and store contents follow from the request and the old
/// contents. A storage fault surfaces as `StoreError`; everything the
/// engine let through is pinned exactly.
pub open spec fn handle_post(
    pre_e: Map<Seq<u8>, Seq<u8>>,
    pre_s: Map<u64, Seq<u8>>,
    post_e: Map<Seq<u8>, Seq<u8>>,
    post_s: Map<u64, Seq<u8>>,
    now: u64,
    req: RequestModel,
    resp: ResponseModel,
) -> bool {
    match req {
        RequestModel::Put { key, payload } => match resp {
            ResponseModel::Success { metadata, payload: rp } => {
                &&& metadata == Some(fresh_meta(payload, now))
                &&& rp is None
                &&& post_s == put_effect(pre_s, payload)
                &&& post_s[fnv64(payload)] == payload
                &&& post_e == pre_e.insert(key, encode_meta_spec(fresh_meta(payload, now)))
            },
            ResponseModel::StoreError => post_s == put_effect(pre_s, payload),
            _ => false,
        },
        RequestModel::Get { key } => match resp {
            ResponseModel::Success { metadata, payload } => {
                &&& pre_e.contains_key(key)
                &&& parse_meta_spec(pre_e[key]) is Some
                &&& ({
                    let m0 = parse_meta_spec(pre_e[key]).unwrap();
                    &&& metadata == Some(touched(m0, now))
                    &&& pre_s.contains_key(m0.content_hash)
                    &&& payload == Some(pre_s[m0.content_hash])
                    &&& post_e == pre_e.insert(key, encode_meta_spec(touched(m0, now)))
                    &&& post_s == pre_s
                })
            },
            ResponseModel::Miss => {
                &&& !pre_e.contains_key(key)
                &&& post_e == pre_e
                &&& post_s == pre_s
            },
            ResponseModel::Inconsistent => {
                &&& pre_e.contains_key(key)
                &&& (parse_meta_spec(pre_e[key]) is None || !pre_s.contains_key(
                    parse_meta_spec(pre_e[key]).unwrap().content_hash,
                ))
                &&& post_e == pre_e.remove(key)
                &&& post_s == pre_s
            },
            ResponseModel::StoreError => {
                &&& post_s == pre_s
                &&& (post_e == pre_e || pre_e.contains_key(key))
            },
            _ => false,
        },
        RequestModel::Stat { key } => match resp {
            ResponseModel::Success { metadata, payload } => {
                &&& payload is None
                &&& pre_e.contains_key(key)
                &&& parse_meta_spec(pre_e[key]) is Some
                &&& metadata == Some(touched(parse_meta_spec(pre_e[key]).unwrap(), now))
                &&& post_e == pre_e.insert(
                    key,
                    encode_meta_spec(touched(parse_meta_spec(pre_e[key]).unwrap(), now)),
                )
                &&& post_s == pre_s
            },
            ResponseModel::Miss => {
                &&& !pre_e.contains_key(key)
                &&& post_e == pre_e
                &&& post_s == pre_s
            },
            ResponseModel::Inconsistent => {
                &&& pre_e.contains_key(key)
                &&& parse_meta_spec(pre_e[key]) is None
                &&& post_e == pre_e.remove(key)
                &&& post_s == pre_s
            },
            ResponseModel::StoreError => {
                &&& post_s == pre_s
                &&& (post_e == pre_e || pre_e.contains_key(key))
            },
            _ => false,
        },
        RequestModel::Evict { key } => match resp {
            ResponseModel::Success { metadata, payload } => {
                &&& metadata is None
                &&& payload is None
                &&& pre_e.contains_key(key)
                &&& post_e == pre_e.remove(key)
                &&& post_s == pre_s
            },
            ResponseModel::Miss => {
                &&& !pre_e.contains_key(key)
                &&& post_e == pre_e.remove(key)
                &&& post_s == pre_s
            },
            ResponseModel::StoreError => post_s == pre_s,
            _ => false,
        },
    }
}

impl Server {
    /// Puts the index and the content store together.
    pub fn new(entries: EntriesIndex, store: ContentStore) -> (s: Self)
        ensures
            s.entries@ == entries@,
            s.store@ == store@,
            s.store.wf() == store.wf(),
    {
        Server { entries, store }
    }

    /// Executes one decoded request: the dispatch step of the protocol
    /// handler. Exactly one response comes back; a storage error is
    /// reported in it, never allowed to escape. A request the storage
    /// engine did not fail preserves the no-dangling-metadata
    /// invariant.
    pub fn handle(&mut self, now: u64, req: &Request) -> (resp: Response)
        requires
            old(self).store.wf(),
        ensures
            final(self).store.wf(),
            handle_post(
                old(self).entries@,
                old(self).store@,
                final(self).entries@,
                final(self).store@,
                now,
                req@,
                resp@,
            ),
            consistent(old(self).entries@, old(self).store@) && !(resp@ is StoreError)
                ==> consistent(final(self).entries@, final(self).store@),
    {
        let resp = self.dispatch(now, req);
        proof {
            if consistent(old(self).entries@, old(self).store@) && !(resp@ is StoreError) {
                lemma_no_dangling_preserved(
                    old(self).entries@,
                    old(self).store@,
                    self.entries@,
                    self.store@,
                    now,
                    req@,
                    resp@,
                );
            }
        }
        resp
    }

    fn dispatch(&mut self, now: u64, req: &Request) -> (resp: Response)
        requires
            old(self).store.wf(),
        ensures
            final(self).store.wf(),
            handle_post(
                old(self).entries@,
                old(self).store@,
                final(self).entries@,
                final(self).store@,
                now,
                req@,
                resp@,
            ),
    {
        match req {
            Request::Put { key, payload } => {
                let bytes = copy_range(payload, 0, payload.len());
                proof {
                    assert(bytes@ =~= payload@);
                }
                let h = self.store.put(bytes);
                // A digest collision would alias another blob, and a
                // later read would serve the other content: refuse the
                // request instead of indexing the wrong bytes.
                let stored_matches = match self.store.get(h) {
                    Some(b) => bytes_eq(b, payload),
                    None => false,
                };
                if !stored_matches {
                    Response::StoreError
                } else {
                    let meta = EntryMetadata {
                        content_hash: h,
                        size_bytes: payload.len() as u64,
                        created_at: now,
                        last_accessed_at: now,
                    };
                    match self.entries.insert(key, &meta) {
                        Ok(_) => Response::Success { metadata: Some(meta), payload: None },
                        Err(_) => Response::StoreError,
                    }
                }
            },
            Request::Get { key } => {
                match self.entries.lookup(key, now) {
                    Err(_) => Response::StoreError,
                    Ok(Lookup::Miss) => Response::Miss,
                    Ok(Lookup::Damaged) => match self.entries.remove(key) {
                        Ok(_) => Response::Inconsistent,
                        Err(_) => Response::StoreError,
                    },
                    Ok(Lookup::Hit(m)) => {
                        match self.store.get(m.content_hash) {
                            Some(b) => {
                                let blob = copy_range(b, 0, b.len());
                                proof {
                                    assert(blob@ =~= old(self).store@[m.content_hash]);
                                }
                                Response::Success { metadata: Some(m), payload: Some(blob) }
                            },
                            None => match self.entries.remove(key) {
                                Ok(_) => {
                                    proof {
                                        assert(self.entries@ =~= old(self).entries@.remove(
                                            key@,
                                        ));
                                    }
                                    Response::Inconsistent
                                },
                                Err(_) => Response::StoreError,
                            },
                        }
                    },
                }
            },
            Request::Stat { key } => {
                match self.entries.lookup(key, now) {
                    Err(_) => Response::StoreError,
                    Ok(Lookup::Miss) => Response::Miss,
                    Ok(Lookup::Damaged) => match self.entries.remove(key) {
                        Ok(_) => Response::Inconsistent,
                        Err(_) => Response::StoreError,
                    },
                    Ok(Lookup::Hit(m)) => Response::Success {
                        metadata: Some(m),
                        payload: None,
                    },
                }
            },
            Request::Evict { key } => {
                match self.entries.remove(key) {
                    Ok(true) => Response::Success { metadata: None, payload: None },
                    Ok(false) => Response::Miss,
                    Err(_) => Response::StoreError,
                }
            },
        }
    }

    /// Executes one request datagram and encodes exactly one response
    /// datagram for it. A datagram that does not decode is answered
    /// `Malformed` and changes nothing.
    pub fn handle_datagram(&mut self, now: u64, datagram: &Vec<u8>) -> (out: Vec<u8>)
        requires
            old(self).store.wf(),
        ensures
            final(self).store.wf(),
            parse_request_spec(datagram@) is None ==> out@ == encode_response_spec(
                ResponseModel::Malformed,
            ) && final(self).entries@ == old(self).entries@ && final(self).store@ == old(
                self,
            ).store@,
            parse_request_spec(datagram@) matches Some(req) ==> exists|resp: ResponseModel|
                {
                    &&& #[trigger] handle_post(
                        old(self).entries@,
                        old(self).store@,
                        final(self).entries@,
                        final(self).store@,
                        now,
                        req,
                        resp,
                    )
                    &&& out@ == encode_response_spec(resp)
                },
            consistent(old(self).entries@, old(self).store@) && out@ != encode_response_spec(
                ResponseModel::StoreError,
            ) ==> consistent(final(self).entries@, final(self).store@),
    {
        match decode_request(datagram) {
            None => encode_response(&Response::Malformed),
            Some(req) => {
                let resp = self.handle(now, &req);
                let out = encode_response(&resp);
                proof {
                    let r = resp@;
                    assert(handle_post(
                        old(self).entries@,
                        old(self).store@,
                        self.entries@,
                        self.store@,
                        now,
                        parse_request_spec(datagram@).unwrap(),
                        r,
                    ) && out@ == encode_response_spec(r));
                }
                out
            },
        }
    }

    /// A reclamation pass: reads every well-formed entry, then removes
    /// from the content store every blob none of them references. A
    /// blob may outlive its last entry until this runs; afterwards
    /// every remaining blob is referenced by some entry.
    pub fn reclaim(&mut self) -> (r: Result<(), IndexError>)
        requires
            old(self).store.wf(),
        ensures
            final(self).store.wf(),
            final(self).entries@ == old(self).entries@,
            match r {
                Ok(_) => {
                    &&& forall|h: u64| #[trigger]
                        final(self).store@.contains_key(h) ==> old(self).store@.contains_key(h)
                            && final(self).store@[h] == old(self).store@[h]
                    &&& forall|h: u64| #[trigger]
                        final(self).store@.contains_key(h) ==> exists|k: Seq<u8>|
                            {
                                &&& #[trigger] old(self).entries@.contains_key(k)
                                &&& parse_meta_spec(old(self).entries@[k]) is Some
                                &&& parse_meta_spec(old(self).entries@[k]).unwrap().content_hash
                                    == h
                            }
                    &&& consistent(old(self).entries@, old(self).store@) ==> consistent(
                        final(self).entries@,
                        final(self).store@,
                    )
                },
                Err(_) => final(self).store@ == old(self).store@,
            },
    {
        let scanned = match self.entries.scan_for_reclamation() {
            Ok(scanned) => scanned,
            Err(e) => {
                return Err(e);
            },
        };
        let mut referenced: Vec<u64> = Vec::new();
        let mut i: usize = 0;
        while i < scanned.len()
            invariant
                0 <= i <= scanned@.len(),
                referenced@.len() == i,
                forall|j: int|
                    0 <= j < i ==> (#[trigger] referenced@[j]) == scanned@[j].1.content_hash,
            decreases scanned@.len() - i,
        {
            referenced.push(scanned[i].1.content_hash);
            i = i + 1;
        }
        proof {
            assert forall|h: u64| #[trigger]
                referenced@.contains(h) implies exists|k: Seq<u8>|
                {
                    &&& #[trigger] self.entries@.contains_key(k)
                    &&& parse_meta_spec(self.entries@[k]) is Some
                    &&& parse_meta_spec(self.entries@[k]).unwrap().content_hash == h
                } by {
                let j = choose|j: int| 0 <= j < referenced@.len() && referenced@[j] == h;
                let k = scanned@[j].0@;
                assert(self.entries@.contains_key(k) && parse_meta_spec(self.entries@[k])
                    == Some(scanned@[j].1));
            }
            assert forall|k: Seq<u8>| #[trigger]
                self.entries@.contains_key(k) && parse_meta_spec(
                    self.entries@[k],
                ) is Some implies referenced@.contains(
                parse_meta_spec(self.entries@[k]).unwrap().content_hash,
            ) by {
                let j = choose|j: int|
                    0 <= j < scanned@.len() && (#[trigger] scanned@[j]).0@ == k;
                assert(referenced@[j] == scanned@[j].1.content_hash);
                assert(parse_meta_spec(self.entries@[k]) == Some(scanned@[j].1));
            }
        }
        self.store.sweep(&referenced);
        Ok(())
    }
}

// ---------------------------------------------------------------------------
// Laws of request handling
// ---------------------------------------------------------------------------

proof fn lemma_consistent_after_insert(
    pre_e: Map<Seq<u8>, Seq<u8>>,
    pre_s: Map<u64, Seq<u8>>,
    post_e: Map<Seq<u8>, Seq<u8>>,
    post_s: Map<u64, Seq<u8>>,
    key: Seq<u8>,
    m: EntryMetadata,
)
    requires
        consistent(pre_e, pre_s),
        post_e == pre_e.insert(key, encode_meta_spec(m)),
        forall|h: u64| #[trigger] pre_s.contains_key(h) ==> post_s.contains_key(h),
        post_s.contains_key(m.content_hash),
    ensures
        consistent(post_e, post_s),
{
    lemma_meta_round_trip(m);
    assert forall|k: Seq<u8>| #[trigger] post_e.contains_key(k) implies {
        &&& parse_meta_spec(post_e[k]) is Some
        &&& post_s.contains_key(parse_meta_spec(post_e[k]).unwrap().content_hash)
    } by {
        if k != key {
            assert(pre_e.contains_key(k));
        }
    }
}

proof fn lemma_consistent_after_remove(
    pre_e: Map<Seq<u8>, Seq<u8>>,
    pre_s: Map<u64, Seq<u8>>,
    key: Seq<u8>,
)
    requires
        consistent(pre_e, pre_s),
    ensures
        consistent(pre_e.remove(key), pre_s),
{
    assert forall|k: Seq<u8>| #[trigger] pre_e.remove(key).contains_key(k) implies {
        &&& parse_meta_spec(pre_e.remove(key)[k]) is Some
        &&& pre_s.contains_key(parse_meta_spec(pre_e.remove(key)[k]).unwrap().content_hash)
    } by {
        assert(pre_e.contains_key(k));
    }
}

/// No dangling metadata under normal operation: if every entry visible
/// via lookup refers to a blob present in the content store, then after
/// any request that the storage engine did not fail, that still holds —
/// so the blob behind every visible entry stays retrievable.
pub proof fn lemma_no_dangling_preserved(
    pre_e: Map<Seq<u8>, Seq<u8>>,
    pre_s: Map<u64, Seq<u8>>,
    post_e: Map<Seq<u8>, Seq<u8>>,
    post_s: Map<u64, Seq<u8>>,
    now: u64,
    req: RequestModel,
    resp: ResponseModel,
)
    requires
        consistent(pre_e, pre_s),
        handle_post(pre_e, pre_s, post_e, post_s, now, req, resp),
        !(resp is StoreError),
    ensures
        consistent(post_e, post_s),
{
    match req {
        RequestModel::Put { key, payload } => {
            lemma_consistent_after_insert(
                pre_e,
                pre_s,
                post_e,
                post_s,
                key,
                fresh_meta(payload, now),
            );
        },
        RequestModel::Get { key } => {
            match resp {
                ResponseModel::Success { .. } => {
                    let m0 = parse_meta_spec(pre_e[key]).unwrap();
                    lemma_consistent_after_insert(
                        pre_e,
                        pre_s,
                        post_e,
                        post_s,
                        key,
                        touched(m0, now),
                    );
                },
                ResponseModel::Inconsistent => {
                    lemma_consistent_after_remove(pre_e, pre_s, key);
                },
                _ => {},
            }
        },
        RequestModel::Stat { key } => {
            match resp {
                ResponseModel::Success { .. } => {
                    let m0 = parse_meta_spec(pre_e[key]).unwrap();
                    lemma_consistent_after_insert(
                        pre_e,
                        pre_s,
                        post_e,
                        post_s,
                        key,
                        touched(m0, now),
                    );
                },
                ResponseModel::Inconsistent => {
                    lemma_consistent_after_remove(pre_e, pre_s, key);
                },
                _ => {},
            }
        },
        RequestModel::Evict { key } => {
            lemma_consistent_after_remove(pre_e, pre_s, key);
        },
    }
}

/// In a consistent cache, a key that is set is served: a Get on it is
/// never answered `Miss` or `Inconsistent` — only with the blob of its
/// entry, or with a reported storage fault.
pub proof fn lemma_get_served_from_store(
    pre_e: Map<Seq<u8>, Seq<u8>>,
    pre_s: Map<u64, Seq<u8>>,
    post_e: Map<Seq<u8>, Seq<u8>>,
    post_s: Map<u64, Seq<u8>>,
    now: u64,
    key: Seq<u8>,
    resp: ResponseModel,
)
    requires
        consistent(pre_e, pre_s),
        pre_e.contains_key(key),
        handle_post(pre_e, pre_s, post_e, post_s, now, RequestModel::Get { key }, resp),
    ensures
        resp is Success || resp is StoreError,
        resp matches ResponseModel::Success { payload, .. } ==> payload == Some(
            pre_s[parse_meta_spec(pre_e[key]).unwrap().content_hash],
        ),
{
}

/// Deduplication: storing identical content under two different keys
/// leaves both entries resolving to one shared content address, and the
/// second store adds no blob beyond what the first one published.
pub proof fn lemma_dedup(
    pre_e: Map<Seq<u8>, Seq<u8>>,
    pre_s: Map<u64, Seq<u8>>,
    mid_e: Map<Seq<u8>, Seq<u8>>,
    mid_s: Map<u64, Seq<u8>>,
    post_e: Map<Seq<u8>, Seq<u8>>,
    post_s: Map<u64, Seq<u8>>,
    now1: u64,
    now2: u64,
    k1: Seq<u8>,
    k2: Seq<u8>,
    payload: Seq<u8>,
    r1: ResponseModel,
    r2: ResponseModel,
)
    requires
        k1 != k2,
        handle_post(pre_e, pre_s, mid_e, mid_s, now1, RequestModel::Put { key: k1, payload }, r1),
        r1 is Success,
        handle_post(mid_e, mid_s, post_e, post_s, now2, RequestModel::Put { key: k2, payload }, r2),
        r2 is Success,
    ensures
        post_s == mid_s,
        post_s.contains_key(fnv64(payload)),
        post_s[fnv64(payload)] == payload,
        post_e.contains_key(k1) && post_e.contains_key(k2),
        parse_meta_spec(post_e[k1]) is Some && parse_meta_spec(post_e[k2]) is Some,
        parse_meta_spec(post_e[k1]).unwrap().content_hash == fnv64(payload),
        parse_meta_spec(post_e[k2]).unwrap().content_hash == fnv64(payload),
{
    lemma_meta_round_trip(fresh_meta(payload, now1));
    lemma_meta_round_trip(fresh_meta(payload, now2));
    assert(mid_s.contains_key(fnv64(payload)));
    assert(post_s =~= mid_s);
    assert(post_e[k1] == mid_e[k1]);
    assert(mid_e[k1] == encode_meta_spec(fresh_meta(payload, now1)));
}

} // verus!

