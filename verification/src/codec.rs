use vstd::prelude::*;

verus! {

// ---------------------------------------------------------------------------
// Little-endian 64-bit words
// ---------------------------------------------------------------------------

/// A 64-bit word assembled from eight bytes, least significant first.
pub open spec fn u64_of(b0: u8, b1: u8, b2: u8, b3: u8, b4: u8, b5: u8, b6: u8, b7: u8) -> u64 {
    (b0 as u64) | ((b1 as u64) << 8) | ((b2 as u64) << 16) | ((b3 as u64) << 24) | ((b4
        as u64) << 32) | ((b5 as u64) << 40) | ((b6 as u64) << 48) | ((b7 as u64) << 56)
}

/// The eight little-endian bytes of a 64-bit word.
pub open spec fn u64_le_bytes(x: u64) -> Seq<u8> {
    seq![
        (x & 0xff) as u8,
        ((x >> 8) & 0xff) as u8,
        ((x >> 16) & 0xff) as u8,
        ((x >> 24) & 0xff) as u8,
        ((x >> 32) & 0xff) as u8,
        ((x >> 40) & 0xff) as u8,
        ((x >> 48) & 0xff) as u8,
        ((x >> 56) & 0xff) as u8,
    ]
}

/// The 64-bit word read little-endian from an eight-byte sequence.
pub open spec fn u64_from_le(s: Seq<u8>) -> u64
    recommends
        s.len() == 8,
{
    u64_of(s[0], s[1], s[2], s[3], s[4], s[5], s[6], s[7])
}

/// Reading back the little-endian bytes of a word yields the word.
pub proof fn lemma_u64_le_round_trip(x: u64)
    ensures
        u64_from_le(u64_le_bytes(x)) == x,
{
    assert(u64_of(
        (x & 0xff) as u8,
        ((x >> 8) & 0xff) as u8,
        ((x >> 16) & 0xff) as u8,
        ((x >> 24) & 0xff) as u8,
        ((x >> 32) & 0xff) as u8,
        ((x >> 40) & 0xff) as u8,
        ((x >> 48) & 0xff) as u8,
        ((x >> 56) & 0xff) as u8,
    ) == x) by (bit_vector);
}

/// Appends the eight little-endian bytes of `x` to `out`.
pub fn push_u64_le(out: &mut Vec<u8>, x: u64)
    ensures
        final(out)@ == old(out)@ + u64_le_bytes(x),
{
    proof {
        assert((x & 0xff) < 256 && ((x >> 8) & 0xff) < 256 && ((x >> 16) & 0xff) < 256 && ((x
            >> 24) & 0xff) < 256 && ((x >> 32) & 0xff) < 256 && ((x >> 40) & 0xff) < 256 && ((x
            >> 48) & 0xff) < 256 && ((x >> 56) & 0xff) < 256) by (bit_vector);
    }
    out.push((x & 0xff) as u8);
    out.push(((x >> 8) & 0xff) as u8);
    out.push(((x >> 16) & 0xff) as u8);
    out.push(((x >> 24) & 0xff) as u8);
    out.push(((x >> 32) & 0xff) as u8);
    out.push(((x >> 40) & 0xff) as u8);
    out.push(((x >> 48) & 0xff) as u8);
    out.push(((x >> 56) & 0xff) as u8);
    proof {
        assert(out@ =~= old(out)@ + u64_le_bytes(x));
    }
}

/// Reads the 64-bit word stored little-endian at `off` in `d`.
pub fn read_u64_le(d: &Vec<u8>, off: usize) -> (x: u64)
    requires
        off + 8 <= d@.len(),
    ensures
        x == u64_from_le(d@.subrange(off as int, off as int + 8)),
{
    // Binding the length as a usize tells the verifier that the byte
    // offsets up to off + 8 fit the machine word.
    let _n: usize = d.len();
    let x = (d[off] as u64) | ((d[off + 1] as u64) << 8) | ((d[off + 2] as u64) << 16) | ((d[off
        + 3] as u64) << 24) | ((d[off + 4] as u64) << 32) | ((d[off + 5] as u64) << 40) | ((d[off
        + 6] as u64) << 48) | ((d[off + 7] as u64) << 56);
    proof {
        let s = d@.subrange(off as int, off as int + 8);
        assert(s[0] == d@[off as int] && s[1] == d@[off as int + 1] && s[2] == d@[off as int + 2]
            && s[3] == d@[off as int + 3] && s[4] == d@[off as int + 4] && s[5] == d@[off as int
            + 5] && s[6] == d@[off as int + 6] && s[7] == d@[off as int + 7]);
    }
    x
}

// ---------------------------------------------------------------------------
// Entry metadata
// ---------------------------------------------------------------------------

/// The index record for one cache key: the address of the entry's blob
/// in the content store, its size, and time bookkeeping for reclamation.
#[derive(Clone, Copy, PartialEq, Eq, Structural, Debug)]
pub struct EntryMetadata {
    pub content_hash: u64,
    pub size_bytes: u64,
    pub created_at: u64,
    pub last_accessed_at: u64,
}

/// The 32-byte on-disk record for one entry.
pub open spec fn encode_meta_spec(m: EntryMetadata) -> Seq<u8> {
    u64_le_bytes(m.content_hash) + u64_le_bytes(m.size_bytes) + u64_le_bytes(m.created_at)
        + u64_le_bytes(m.last_accessed_at)
}

/// Decodes a 32-byte record; anything of another length is rejected.
pub open spec fn parse_meta_spec(s: Seq<u8>) -> Option<EntryMetadata> {
    if s.len() == 32 {
        Some(
            (EntryMetadata {
                content_hash: u64_from_le(s.subrange(0, 8)),
                size_bytes: u64_from_le(s.subrange(8, 16)),
                created_at: u64_from_le(s.subrange(16, 24)),
                last_accessed_at: u64_from_le(s.subrange(24, 32)),
            }),
        )
    } else {
        None
    }
}

/// Decoding an encoded entry record yields the record unchanged.
pub proof fn lemma_meta_round_trip(m: EntryMetadata)
    ensures
        parse_meta_spec(encode_meta_spec(m)) == Some(m),
{
    let s = encode_meta_spec(m);
    assert(s.subrange(0, 8) =~= u64_le_bytes(m.content_hash));
    assert(s.subrange(8, 16) =~= u64_le_bytes(m.size_bytes));
    assert(s.subrange(16, 24) =~= u64_le_bytes(m.created_at));
    assert(s.subrange(24, 32) =~= u64_le_bytes(m.last_accessed_at));
    lemma_u64_le_round_trip(m.content_hash);
    lemma_u64_le_round_trip(m.size_bytes);
    lemma_u64_le_round_trip(m.created_at);
    lemma_u64_le_round_trip(m.last_accessed_at);
}

/// Encodes an entry record as its 32 on-disk bytes.
pub fn encode_meta(m: &EntryMetadata) -> (out: Vec<u8>)
    ensures
        out@ == encode_meta_spec(*m),
{
    let mut out: Vec<u8> = Vec::new();
    push_u64_le(&mut out, m.content_hash);
    push_u64_le(&mut out, m.size_bytes);
    push_u64_le(&mut out, m.created_at);
    push_u64_le(&mut out, m.last_accessed_at);
    proof {
        assert(out@ =~= encode_meta_spec(*m));
    }
    out
}

/// Decodes an on-disk entry record.
pub fn parse_meta(d: &Vec<u8>) -> (r: Option<EntryMetadata>)
    ensures
        r == parse_meta_spec(d@),
{
    if d.len() != 32 {
        return None;
    }
    let m = EntryMetadata {
        content_hash: read_u64_le(d, 0),
        size_bytes: read_u64_le(d, 8),
        created_at: read_u64_le(d, 16),
        last_accessed_at: read_u64_le(d, 24),
    };
    Some(m)
}

} // verus!
