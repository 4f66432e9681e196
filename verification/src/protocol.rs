use vstd::prelude::*;
use crate::codec::{
    encode_meta, encode_meta_spec, parse_meta, parse_meta_spec, push_u64_le, read_u64_le,
    lemma_u64_le_round_trip, u64_from_le, u64_le_bytes, EntryMetadata,
};

verus! {

// ---------------------------------------------------------------------------
// Typed messages
// ---------------------------------------------------------------------------

/// One client request, self-contained in a single datagram.
#[derive(Debug, PartialEq, Eq)]
pub enum Request {
    Get { key: Vec<u8> },
    Put { key: Vec<u8>, payload: Vec<u8> },
    Stat { key: Vec<u8> },
    Evict { key: Vec<u8> },
}

/// The mathematical model of a request: the same shape over byte
/// sequences.
pub enum RequestModel {
    Get { key: Seq<u8> },
    Put { key: Seq<u8>, payload: Seq<u8> },
    Stat { key: Seq<u8> },
    Evict { key: Seq<u8> },
}

impl View for Request {
    type V = RequestModel;

    open spec fn view(&self) -> RequestModel {
        match self {
            Request::Get { key } => RequestModel::Get { key: key@ },
            Request::Put { key, payload } => RequestModel::Put { key: key@, payload: payload@ },
            Request::Stat { key } => RequestModel::Stat { key: key@ },
            Request::Evict { key } => RequestModel::Evict { key: key@ },
        }
    }
}

/// One response, exactly one per request. `Success` answers a request
/// that was served; the other variants are the typed failures.
#[derive(Debug, PartialEq, Eq)]
pub enum Response {
    Success { metadata: Option<EntryMetadata>, payload: Option<Vec<u8>> },
    Miss,
    Malformed,
    Inconsistent,
    StoreError,
}

/// The mathematical model of a response.
pub enum ResponseModel {
    Success { metadata: Option<EntryMetadata>, payload: Option<Seq<u8>> },
    Miss,
    Malformed,
    Inconsistent,
    StoreError,
}

impl View for Response {
    type V = ResponseModel;

    open spec fn view(&self) -> ResponseModel {
        match self {
            Response::Success { metadata, payload } => ResponseModel::Success {
                metadata: *metadata,
                payload: match payload {
                    Some(p) => Some(p@),
                    None => None,
                },
            },
            Response::Miss => ResponseModel::Miss,
            Response::Malformed => ResponseModel::Malformed,
            Response::Inconsistent => ResponseModel::Inconsistent,
            Response::StoreError => ResponseModel::StoreError,
        }
    }
}

// ---------------------------------------------------------------------------
// Request wire format: op byte, key length and payload length (8 bytes
// little endian each), key, then the payload. The lengths must account
// for the datagram exactly, so a truncated datagram never parses.
// ---------------------------------------------------------------------------

pub open spec fn req_key(m: RequestModel) -> Seq<u8> {
    match m {
        RequestModel::Get { key } => key,
        RequestModel::Put { key, .. } => key,
        RequestModel::Stat { key } => key,
        RequestModel::Evict { key } => key,
    }
}

pub open spec fn req_payload(m: RequestModel) -> Seq<u8> {
    match m {
        RequestModel::Put { payload, .. } => payload,
        _ => Seq::<u8>::empty(),
    }
}

pub open spec fn req_op_byte(m: RequestModel) -> u8 {
    match m {
        RequestModel::Get { .. } => 1,
        RequestModel::Put { .. } => 2,
        RequestModel::Stat { .. } => 3,
        RequestModel::Evict { .. } => 4,
    }
}

/// The bytes of a request datagram.
pub open spec fn encode_request_spec(m: RequestModel) -> Seq<u8> {
    seq![req_op_byte(m)] + u64_le_bytes(req_key(m).len() as u64) + u64_le_bytes(
        req_payload(m).len() as u64,
    ) + req_key(m) + req_payload(m)
}

/// Decodes a request datagram. The two length fields must account for
/// the datagram exactly, so anything truncated or padded is rejected
/// as malformed.
pub open spec fn parse_request_spec(d: Seq<u8>) -> Option<RequestModel> {
    if d.len() < 17 {
        None
    } else {
        let klen = u64_from_le(d.subrange(1, 9)) as int;
        let plen = u64_from_le(d.subrange(9, 17)) as int;
        if 17 + klen + plen != d.len() {
            None
        } else {
            let key = d.subrange(17, 17 + klen);
            if d[0] == 1 {
                if plen == 0 {
                    Some(RequestModel::Get { key })
                } else {
                    None
                }
            } else if d[0] == 2 {
                Some(RequestModel::Put { key, payload: d.subrange(17 + klen, d.len() as int) })
            } else if d[0] == 3 {
                if plen == 0 {
                    Some(RequestModel::Stat { key })
                } else {
                    None
                }
            } else if d[0] == 4 {
                if plen == 0 {
                    Some(RequestModel::Evict { key })
                } else {
                    None
                }
            } else {
                None
            }
        }
    }
}

/// A request whose key and payload lengths fit the wire's length
/// fields.
pub open spec fn req_wf(m: RequestModel) -> bool {
    req_key(m).len() <= u64::MAX && req_payload(m).len() <= u64::MAX
}

/// Decoding an encoded request yields the request unchanged.
pub proof fn lemma_request_round_trip(m: RequestModel)
    requires
        req_wf(m),
    ensures
        parse_request_spec(encode_request_spec(m)) == Some(m),
{
    let d = encode_request_spec(m);
    let key = req_key(m);
    let payload = req_payload(m);
    lemma_u64_le_round_trip(key.len() as u64);
    lemma_u64_le_round_trip(payload.len() as u64);
    assert(d.subrange(1, 9) =~= u64_le_bytes(key.len() as u64));
    assert(d.subrange(9, 17) =~= u64_le_bytes(payload.len() as u64));
    assert(d.subrange(17, 17 + key.len() as int) =~= key);
    assert(d.subrange(17 + key.len() as int, d.len() as int) =~= payload);
}

// ---------------------------------------------------------------------------
// Response wire format: status byte; for a success also a flags byte,
// an optional 32-byte metadata record, and an optional payload.
// ---------------------------------------------------------------------------

pub open spec fn resp_flags(metadata: Option<EntryMetadata>, payload: Option<Seq<u8>>) -> u8 {
    ((if metadata is Some {
        1u8
    } else {
        0u8
    }) + (if payload is Some {
        2u8
    } else {
        0u8
    })) as u8
}

/// The bytes of a response datagram.
pub open spec fn encode_response_spec(m: ResponseModel) -> Seq<u8> {
    match m {
        ResponseModel::Success { metadata, payload } => seq![0u8, resp_flags(metadata, payload)]
            + (match metadata {
            Some(meta) => encode_meta_spec(meta),
            None => Seq::<u8>::empty(),
        }) + (match payload {
            Some(p) => p,
            None => Seq::<u8>::empty(),
        }),
        ResponseModel::Miss => seq![1u8],
        ResponseModel::Malformed => seq![2u8],
        ResponseModel::Inconsistent => seq![3u8],
        ResponseModel::StoreError => seq![4u8],
    }
}

pub open spec fn parse_success_spec(d: Seq<u8>) -> Option<ResponseModel> {
    if d.len() < 2 {
        None
    } else {
        let flags = d[1];
        if flags == 0 {
            if d.len() == 2 {
                Some(ResponseModel::Success { metadata: None, payload: None })
            } else {
                None
            }
        } else if flags == 1 {
            if d.len() == 34 {
                match parse_meta_spec(d.subrange(2, 34)) {
                    Some(meta) => Some(
                        ResponseModel::Success { metadata: Some(meta), payload: None },
                    ),
                    None => None,
                }
            } else {
                None
            }
        } else if flags == 2 {
            Some(
                ResponseModel::Success {
                    metadata: None,
                    payload: Some(d.subrange(2, d.len() as int)),
                },
            )
        } else if flags == 3 {
            if d.len() >= 34 {
                match parse_meta_spec(d.subrange(2, 34)) {
                    Some(meta) => Some(
                        ResponseModel::Success {
                            metadata: Some(meta),
                            payload: Some(d.subrange(34, d.len() as int)),
                        },
                    ),
                    None => None,
                }
            } else {
                None
            }
        } else {
            None
        }
    }
}

/// Decodes a response datagram.
pub open spec fn parse_response_spec(d: Seq<u8>) -> Option<ResponseModel> {
    if d.len() < 1 {
        None
    } else if d[0] == 0 {
        parse_success_spec(d)
    } else if d[0] == 1 {
        if d.len() == 1 {
            Some(ResponseModel::Miss)
        } else {
            None
        }
    } else if d[0] == 2 {
        if d.len() == 1 {
            Some(ResponseModel::Malformed)
        } else {
            None
        }
    } else if d[0] == 3 {
        if d.len() == 1 {
            Some(ResponseModel::Inconsistent)
        } else {
            None
        }
    } else if d[0] == 4 {
        if d.len() == 1 {
            Some(ResponseModel::StoreError)
        } else {
            None
        }
    } else {
        None
    }
}

/// Decoding an encoded response yields the response unchanged.
pub proof fn lemma_response_round_trip(m: ResponseModel)
    ensures
        parse_response_spec(encode_response_spec(m)) == Some(m),
{
    let d = encode_response_spec(m);
    match m {
        ResponseModel::Success { metadata, payload } => {
            match metadata {
                Some(meta) => {
                    crate::codec::lemma_meta_round_trip(meta);
                    assert(d.subrange(2, 34) =~= encode_meta_spec(meta));
                    match payload {
                        Some(p) => {
                            assert(d.subrange(34, d.len() as int) =~= p);
                        },
                        None => {
                            assert(d.len() == 34);
                        },
                    }
                },
                None => {
                    match payload {
                        Some(p) => {
                            assert(d.subrange(2, d.len() as int) =~= p);
                        },
                        None => {
                            assert(d.len() == 2);
                        },
                    }
                },
            }
        },
        _ => {},
    }
}

// ---------------------------------------------------------------------------
// Executable encoders and decoders
// ---------------------------------------------------------------------------

/// Appends all of `src` to `out`.
pub fn extend_bytes(out: &mut Vec<u8>, src: &Vec<u8>)
    ensures
        final(out)@ == old(out)@ + src@,
{
    let mut i: usize = 0;
    while i < src.len()
        invariant
            i <= src@.len(),
            out@ == old(out)@ + src@.take(i as int),
        decreases src@.len() - i,
    {
        out.push(src[i]);
        proof {
            assert(old(out)@ + src@.take(i as int + 1) =~= (old(out)@ + src@.take(i as int)).push(
                src@[i as int],
            ));
        }
        i = i + 1;
    }
    proof {
        assert(src@.take(src@.len() as int) =~= src@);
    }
}

/// Whether two byte vectors hold the same bytes.
pub fn bytes_eq(a: &Vec<u8>, b: &Vec<u8>) -> (r: bool)
    ensures
        r == (a@ == b@),
{
    if a.len() != b.len() {
        return false;
    }
    let mut i: usize = 0;
    while i < a.len()
        invariant
            i <= a@.len(),
            a@.len() == b@.len(),
            forall|j: int| 0 <= j < i ==> a@[j] == b@[j],
        decreases a@.len() - i,
    {
        if a[i] != b[i] {
            return false;
        }
        i = i + 1;
    }
    proof {
        assert(a@ =~= b@);
    }
    true
}

/// Copies the bytes of `d` from `start` (inclusive) to `end` (exclusive).
pub fn copy_range(d: &Vec<u8>, start: usize, end: usize) -> (out: Vec<u8>)
    requires
        start <= end <= d@.len(),
    ensures
        out@ == d@.subrange(start as int, end as int),
{
    let mut out: Vec<u8> = Vec::new();
    let mut i: usize = start;
    while i < end
        invariant
            start <= i <= end <= d@.len(),
            out@ == d@.subrange(start as int, i as int),
        decreases end - i,
    {
        out.push(d[i]);
        proof {
            assert(d@.subrange(start as int, i as int + 1) =~= d@.subrange(
                start as int,
                i as int,
            ).push(d@[i as int]));
        }
        i = i + 1;
    }
    out
}

/// Encodes a request as one datagram.
pub fn encode_request(r: &Request) -> (out: Vec<u8>)
    ensures
        out@ == encode_request_spec(r@),
{
    let mut out: Vec<u8> = Vec::new();
    match r {
        Request::Get { key } => {
            out.push(1);
            push_u64_le(&mut out, key.len() as u64);
            push_u64_le(&mut out, 0);
            extend_bytes(&mut out, key);
        },
        Request::Put { key, payload } => {
            out.push(2);
            push_u64_le(&mut out, key.len() as u64);
            push_u64_le(&mut out, payload.len() as u64);
            extend_bytes(&mut out, key);
            extend_bytes(&mut out, payload);
        },
        Request::Stat { key } => {
            out.push(3);
            push_u64_le(&mut out, key.len() as u64);
            push_u64_le(&mut out, 0);
            extend_bytes(&mut out, key);
        },
        Request::Evict { key } => {
            out.push(4);
            push_u64_le(&mut out, key.len() as u64);
            push_u64_le(&mut out, 0);
            extend_bytes(&mut out, key);
        },
    }
    proof {
        assert(out@ =~= encode_request_spec(r@));
    }
    out
}

/// Decodes one request datagram; a datagram that does not parse exactly
/// is rejected.
pub fn decode_request(d: &Vec<u8>) -> (r: Option<Request>)
    ensures
        match r {
            Some(req) => parse_request_spec(d@) == Some(req@),
            None => parse_request_spec(d@) is None,
        },
{
    let n: usize = d.len();
    if n < 17 {
        return None;
    }
    let op = d[0];
    let klen64 = read_u64_le(d, 1);
    let plen64 = read_u64_le(d, 9);
    if klen64 > (n - 17) as u64 {
        return None;
    }
    let klen = klen64 as usize;
    if plen64 != (n - 17 - klen) as u64 {
        return None;
    }
    let key = copy_range(d, 17, 17 + klen);
    if op == 1 {
        if plen64 == 0 {
            Some(Request::Get { key })
        } else {
            None
        }
    } else if op == 2 {
        let payload = copy_range(d, 17 + klen, n);
        Some(Request::Put { key, payload })
    } else if op == 3 {
        if plen64 == 0 {
            Some(Request::Stat { key })
        } else {
            None
        }
    } else if op == 4 {
        if plen64 == 0 {
            Some(Request::Evict { key })
        } else {
            None
        }
    } else {
        None
    }
}

/// Encodes a response as one datagram.
pub fn encode_response(r: &Response) -> (out: Vec<u8>)
    ensures
        out@ == encode_response_spec(r@),
{
    let mut out: Vec<u8> = Vec::new();
    match r {
        Response::Success { metadata, payload } => {
            out.push(0);
            let flags: u8 = (if metadata.is_some() {
                1
            } else {
                0
            }) + (if payload.is_some() {
                2
            } else {
                0
            });
            out.push(flags);
            match metadata {
                Some(meta) => {
                    let mbytes = encode_meta(meta);
                    extend_bytes(&mut out, &mbytes);
                },
                None => {},
            }
            match payload {
                Some(p) => {
                    extend_bytes(&mut out, p);
                },
                None => {},
            }
        },
        Response::Miss => {
            out.push(1);
        },
        Response::Malformed => {
            out.push(2);
        },
        Response::Inconsistent => {
            out.push(3);
        },
        Response::StoreError => {
            out.push(4);
        },
    }
    proof {
        assert(out@ =~= encode_response_spec(r@));
    }
    out
}

/// Decodes one response datagram.
pub fn decode_response(d: &Vec<u8>) -> (r: Option<Response>)
    ensures
        match r {
            Some(resp) => parse_response_spec(d@) == Some(resp@),
            None => parse_response_spec(d@) is None,
        },
{
    let n: usize = d.len();
    if n < 1 {
        return None;
    }
    let status = d[0];
    if status == 0 {
        if n < 2 {
            return None;
        }
        let flags = d[1];
        if flags == 0 {
            if n == 2 {
                Some(Response::Success { metadata: None, payload: None })
            } else {
                None
            }
        } else if flags == 1 {
            if n == 34 {
                let mbytes = copy_range(d, 2, 34);
                match parse_meta(&mbytes) {
                    Some(meta) => Some(
                        Response::Success { metadata: Some(meta), payload: None },
                    ),
                    None => None,
                }
            } else {
                None
            }
        } else if flags == 2 {
            let payload = copy_range(d, 2, n);
            Some(Response::Success { metadata: None, payload: Some(payload) })
        } else if flags == 3 {
            if n >= 34 {
                let mbytes = copy_range(d, 2, 34);
                let payload = copy_range(d, 34, n);
                match parse_meta(&mbytes) {
                    Some(meta) => Some(
                        Response::Success { metadata: Some(meta), payload: Some(payload) },
                    ),
                    None => None,
                }
            } else {
                None
            }
        } else {
            None
        }
    } else if status == 1 {
        if n == 1 {
            Some(Response::Miss)
        } else {
            None
        }
    } else if status == 2 {
        if n == 1 {
            Some(Response::Malformed)
        } else {
            None
        }
    } else if status == 3 {
        if n == 1 {
            Some(Response::Inconsistent)
        } else {
            None
        }
    } else if status == 4 {
        if n == 1 {
            Some(Response::StoreError)
        } else {
            None
        }
    } else {
        None
    }
}

} // verus!
