use vstd::prelude::*;
use crate::codec::{encode_meta, encode_meta_spec, parse_meta, parse_meta_spec, EntryMetadata};

verus! {

// ---------------------------------------------------------------------------
// The embedded key-value engine, taken on trust at its documented contract
// ---------------------------------------------------------------------------

#[verifier::external_type_specification]
#[verifier::external_body]
pub struct ExDb(sled::Db);

#[verifier::external_type_specification]
#[verifier::external_body]
pub struct ExSledError(sled::Error);

/// What the engine's tree holds: a map from key bytes to value bytes.
/// The handle is held uniquely by the entries index and never cloned,
/// so every mutation goes through a wrapper that takes it exclusively.
pub uninterp spec fn db_contents(db: sled::Db) -> Map<Seq<u8>, Seq<u8>>;

/// Relies on sled::Tree::insert: sets the key to the value and returns
/// the prior value if one was set. On an error nothing is claimed.
#[verifier::external_body]
fn db_insert(db: &mut sled::Db, key: &Vec<u8>, value: &Vec<u8>) -> (r: Result<
    Option<Vec<u8>>,
    sled::Error,
>)
    ensures
        match r {
            Ok(prev) => {
                &&& db_contents(*final(db)) == db_contents(*old(db)).insert(key@, value@)
                &&& match prev {
                    Some(p) => db_contents(*old(db)).contains_key(key@) && p@ == db_contents(
                        *old(db),
                    )[key@],
                    None => !db_contents(*old(db)).contains_key(key@),
                }
            },
            Err(_) => true,
        },
{
    match db.insert(key.as_slice(), value.as_slice()) {
        Ok(Some(prev)) => Ok(Some(prev.to_vec())),
        Ok(None) => Ok(None),
        Err(e) => Err(e),
    }
}

/// Relies on sled::Tree::get: retrieves the value set for the key, if
/// one exists. Read-only.
#[verifier::external_body]
fn db_get(db: &sled::Db, key: &Vec<u8>) -> (r: Result<Option<Vec<u8>>, sled::Error>)
    ensures
        match r {
            Ok(Some(v)) => db_contents(*db).contains_key(key@) && v@ == db_contents(*db)[key@],
            Ok(None) => !db_contents(*db).contains_key(key@),
            Err(_) => true,
        },
{
    match db.get(key.as_slice()) {
        Ok(Some(v)) => Ok(Some(v.to_vec())),
        Ok(None) => Ok(None),
        Err(e) => Err(e),
    }
}

/// Relies on sled::Tree::remove: deletes the key and returns the old
/// value if one was set. On an error nothing is claimed.
#[verifier::external_body]
fn db_remove(db: &mut sled::Db, key: &Vec<u8>) -> (r: Result<Option<Vec<u8>>, sled::Error>)
    ensures
        match r {
            Ok(prev) => {
                &&& db_contents(*final(db)) == db_contents(*old(db)).remove(key@)
                &&& match prev {
                    Some(p) => db_contents(*old(db)).contains_key(key@) && p@ == db_contents(
                        *old(db),
                    )[key@],
                    None => !db_contents(*old(db)).contains_key(key@),
                }
            },
            Err(_) => true,
        },
{
    match db.remove(key.as_slice()) {
        Ok(Some(prev)) => Ok(Some(prev.to_vec())),
        Ok(None) => Ok(None),
        Err(e) => Err(e),
    }
}

/// Relies on sled::Tree::iter: yields every key-value pair of the tree.
/// Read-only.
#[verifier::external_body]
fn db_scan(db: &sled::Db) -> (r: Result<Vec<(Vec<u8>, Vec<u8>)>, sled::Error>)
    ensures
        match r {
            Ok(pairs) => {
                &&& forall|i: int|
                    0 <= i < pairs@.len() ==> db_contents(*db).contains_key(
                        (#[trigger] pairs@[i]).0@,
                    ) && db_contents(*db)[pairs@[i].0@] == pairs@[i].1@
                &&& forall|k: Seq<u8>|
                    #[trigger] db_contents(*db).contains_key(k) ==> exists|i: int|
                        0 <= i < pairs@.len() && (#[trigger] pairs@[i]).0@ == k
            },
            Err(_) => true,
        },
{
    let mut out: Vec<(Vec<u8>, Vec<u8>)> = Vec::new();
    for item in db.iter() {
        let (k, v) = item?;
        out.push((k.to_vec(), v.to_vec()));
    }
    Ok(out)
}

// ---------------------------------------------------------------------------
// Index totality
// ---------------------------------------------------------------------------

/// One single-key index mutation, as `insert` and `remove` describe it.
pub enum IndexOp {
    Insert { key: Seq<u8>, value: Seq<u8> },
    Remove { key: Seq<u8> },
}

pub open spec fn op_key(op: IndexOp) -> Seq<u8> {
    match op {
        IndexOp::Insert { key, .. } => key,
        IndexOp::Remove { key } => key,
    }
}

/// What one mutation does to the index contents: exactly the map
/// update that `insert` and `remove` promise in their contracts.
pub open spec fn apply_op(m: Map<Seq<u8>, Seq<u8>>, op: IndexOp) -> Map<Seq<u8>, Seq<u8>> {
    match op {
        IndexOp::Insert { key, value } => m.insert(key, value),
        IndexOp::Remove { key } => m.remove(key),
    }
}

/// The index contents after a whole sequence of mutations.
pub open spec fn apply_ops(m: Map<Seq<u8>, Seq<u8>>, ops: Seq<IndexOp>) -> Map<Seq<u8>, Seq<u8>>
    decreases ops.len(),
{
    if ops.len() == 0 {
        m
    } else {
        apply_op(apply_ops(m, ops.drop_last()), ops.last())
    }
}

/// The position of the last mutation that touches key `k`, or -1.
pub open spec fn last_touch(ops: Seq<IndexOp>, k: Seq<u8>) -> int
    decreases ops.len(),
{
    if ops.len() == 0 {
        -1
    } else if op_key(ops.last()) == k {
        ops.len() - 1
    } else {
        last_touch(ops.drop_last(), k)
    }
}

proof fn lemma_last_touch_bounds(ops: Seq<IndexOp>, k: Seq<u8>)
    ensures
        -1 <= last_touch(ops, k) < ops.len(),
        last_touch(ops, k) >= 0 ==> op_key(ops[last_touch(ops, k)]) == k,
    decreases ops.len(),
{
    if ops.len() > 0 && op_key(ops.last()) != k {
        lemma_last_touch_bounds(ops.drop_last(), k);
        if last_touch(ops.drop_last(), k) >= 0 {
            assert(ops.drop_last()[last_touch(ops.drop_last(), k)] == ops[last_touch(
                ops.drop_last(),
                k,
            )]);
        }
    }
}

/// Index totality: after any sequence of inserts and removes, a lookup
/// of a key reflects exactly the last mutation applied to that key — an
/// insert leaves exactly its value set, a remove leaves the key unset —
/// and a key no mutation touched keeps its initial binding.
pub proof fn lemma_index_totality(m: Map<Seq<u8>, Seq<u8>>, ops: Seq<IndexOp>, k: Seq<u8>)
    ensures
        ({
            let i = last_touch(ops, k);
            let result = apply_ops(m, ops);
            if i < 0 {
                &&& result.contains_key(k) == m.contains_key(k)
                &&& m.contains_key(k) ==> result[k] == m[k]
            } else {
                match ops[i] {
                    IndexOp::Insert { key, value } => result.contains_key(k) && result[k]
                        == value,
                    IndexOp::Remove { .. } => !result.contains_key(k),
                }
            }
        }),
    decreases ops.len(),
{
    if ops.len() > 0 {
        lemma_index_totality(m, ops.drop_last(), k);
        if op_key(ops.last()) != k {
            lemma_last_touch_bounds(ops.drop_last(), k);
            let i = last_touch(ops, k);
            if i >= 0 {
                assert(ops[i] == ops.drop_last()[i]);
            }
        }
    }
}

// ---------------------------------------------------------------------------
// The entries index
// ---------------------------------------------------------------------------

/// An error of the underlying key-value engine, reported to the caller
/// and never allowed to crash the daemon.
#[derive(Clone, Copy, PartialEq, Eq, Structural, Debug)]
pub enum IndexError {
    Backend,
}

/// What a lookup found.
#[derive(Debug, PartialEq, Eq)]
pub enum Lookup {
    /// The key is set and its record decodes; the record, with its
    /// access time refreshed.
    Hit(EntryMetadata),
    /// The key is not set.
    Miss,
    /// The key is set but its record does not decode.
    Damaged,
}

/// The persistent index from cache keys to entry metadata, backed by an
/// embedded, crash-safe, ordered key-value store held open for the
/// daemon's lifetime.
pub struct EntriesIndex {
    db: sled::Db,
}

/// The record `m` with its access time set to `now`.
pub open spec fn touched(m: EntryMetadata, now: u64) -> EntryMetadata {
    EntryMetadata { last_accessed_at: now, ..m }
}

impl EntriesIndex {
    /// The raw contents: key bytes to encoded entry records.
    pub closed spec fn view(&self) -> Map<Seq<u8>, Seq<u8>> {
        db_contents(self.db)
    }

    /// Wraps an opened engine handle.
    pub fn new(db: sled::Db) -> (s: Self)
        ensures
            s@ == db_contents(db),
    {
        EntriesIndex { db }
    }

    /// Sets the entry for `key`, overwriting any prior entry for the
    /// same key (last-writer-wins). Atomic as a single-key operation.
    pub fn insert(&mut self, key: &Vec<u8>, meta: &EntryMetadata) -> (r: Result<(), IndexError>)
        ensures
            r is Ok ==> final(self)@ == old(self)@.insert(key@, encode_meta_spec(*meta)),
    {
        let value = encode_meta(meta);
        match db_insert(&mut self.db, key, &value) {
            Ok(_) => Ok(()),
            Err(_) => Err(IndexError::Backend),
        }
    }

    /// Removes the entry for `key`; reports whether one was set.
    /// The entry's blob is not touched: it becomes a reclamation
    /// candidate, removed later by a reclamation pass.
    pub fn remove(&mut self, key: &Vec<u8>) -> (r: Result<bool, IndexError>)
        ensures
            match r {
                Ok(removed) => {
                    &&& final(self)@ == old(self)@.remove(key@)
                    &&& removed == old(self)@.contains_key(key@)
                },
                Err(_) => true,
            },
    {
        match db_remove(&mut self.db, key) {
            Ok(prev) => Ok(prev.is_some()),
            Err(_) => Err(IndexError::Backend),
        }
    }

    /// Looks the key up and, on a hit, refreshes the record's access
    /// time to `now` (the bookkeeping behind least-recently-used
    /// reclamation). A failed refresh is reported like any other
    /// storage error.
    pub fn lookup(&mut self, key: &Vec<u8>, now: u64) -> (r: Result<Lookup, IndexError>)
        ensures
            match r {
                Ok(Lookup::Hit(m)) => {
                    &&& old(self)@.contains_key(key@)
                    &&& parse_meta_spec(old(self)@[key@]) is Some
                    &&& m == touched(parse_meta_spec(old(self)@[key@]).unwrap(), now)
                    &&& final(self)@ == old(self)@.insert(key@, encode_meta_spec(m))
                },
                Ok(Lookup::Miss) => {
                    &&& !old(self)@.contains_key(key@)
                    &&& final(self)@ == old(self)@
                },
                Ok(Lookup::Damaged) => {
                    &&& old(self)@.contains_key(key@)
                    &&& parse_meta_spec(old(self)@[key@]) is None
                    &&& final(self)@ == old(self)@
                },
                Err(_) => final(self)@ == old(self)@ || old(self)@.contains_key(key@),
            },
    {
        let got = match db_get(&self.db, key) {
            Ok(v) => v,
            Err(_) => {
                return Err(IndexError::Backend);
            },
        };
        match got {
            None => Ok(Lookup::Miss),
            Some(raw) => {
                match parse_meta(&raw) {
                    None => Ok(Lookup::Damaged),
                    Some(m) => {
                        let refreshed = EntryMetadata { last_accessed_at: now, ..m };
                        let value = encode_meta(&refreshed);
                        match db_insert(&mut self.db, key, &value) {
                            Ok(_) => Ok(Lookup::Hit(refreshed)),
                            Err(_) => Err(IndexError::Backend),
                        }
                    },
                }
            },
        }
    }

    /// Reads every entry whose record decodes, for a reclamation pass.
    /// Every well-formed entry of the index is in the result.
    pub fn scan_for_reclamation(&self) -> (r: Result<Vec<(Vec<u8>, EntryMetadata)>, IndexError>)
        ensures
            match r {
                Ok(entries) => {
                    &&& forall|i: int|
                        0 <= i < entries@.len() ==> self@.contains_key(
                            (#[trigger] entries@[i]).0@,
                        ) && parse_meta_spec(self@[entries@[i].0@]) == Some(entries@[i].1)
                    &&& forall|k: Seq<u8>|
                        #[trigger] self@.contains_key(k) && parse_meta_spec(self@[k]) is Some
                            ==> exists|i: int|
                            0 <= i < entries@.len() && (#[trigger] entries@[i]).0@ == k
                },
                Err(_) => true,
            },
    {
        let pairs = match db_scan(&self.db) {
            Ok(pairs) => pairs,
            Err(_) => {
                return Err(IndexError::Backend);
            },
        };
        let mut out: Vec<(Vec<u8>, EntryMetadata)> = Vec::new();
        let mut i: usize = 0;
        while i < pairs.len()
            invariant
                0 <= i <= pairs@.len(),
                forall|j: int|
                    0 <= j < pairs@.len() ==> self@.contains_key((#[trigger] pairs@[j]).0@)
                        && self@[pairs@[j].0@] == pairs@[j].1@,
                forall|k: Seq<u8>|
                    #[trigger] self@.contains_key(k) ==> exists|j: int|
                        0 <= j < pairs@.len() && (#[trigger] pairs@[j]).0@ == k,
                forall|j: int|
                    0 <= j < out@.len() ==> self@.contains_key((#[trigger] out@[j]).0@)
                        && parse_meta_spec(self@[out@[j].0@]) == Some(out@[j].1),
                forall|j: int|
                    0 <= j < i ==> parse_meta_spec((#[trigger] pairs@[j]).1@) is Some
                        ==> exists|l: int|
                        0 <= l < out@.len() && (#[trigger] out@[l]).0@ == pairs@[j].0@,
            decreases pairs@.len() - i,
        {
            let (key, raw) = &pairs[i];
            match parse_meta(raw) {
                Some(m) => {
                    let key_copy = crate::protocol::copy_range(key, 0, key.len());
                    proof {
                        assert(key_copy@ =~= pairs@[i as int].0@);
                        assert(self@.contains_key(pairs@[i as int].0@));
                        assert(parse_meta_spec(self@[pairs@[i as int].0@]) == Some(m));
                    }
                    let ghost out_before = out@;
                    out.push((key_copy, m));
                    proof {
                        assert((out@[out@.len() - 1]).0@ == pairs@[i as int].0@);
                        assert forall|j: int|
                            0 <= j < i + 1 && parse_meta_spec(
                                (#[trigger] pairs@[j]).1@,
                            ) is Some implies exists|l: int|
                            0 <= l < out@.len() && (#[trigger] out@[l]).0@ == pairs@[j].0@ by {
                            if j < i {
                                let l = choose|l: int|
                                    0 <= l < out_before.len() && (#[trigger] out_before[l]).0@
                                        == pairs@[j].0@;
                                assert((out@[l]).0@ == pairs@[j].0@);
                            } else {
                                assert((out@[out@.len() - 1]).0@ == pairs@[j].0@);
                            }
                        }
                    }
                },
                None => {},
            }
            i = i + 1;
        }
        proof {
            assert forall|k: Seq<u8>|
                #[trigger] self@.contains_key(k) && parse_meta_spec(self@[k]) is Some implies exists|l: int|
                0 <= l < out@.len() && (#[trigger] out@[l]).0@ == k by {
                let j = choose|j: int| 0 <= j < pairs@.len() && (#[trigger] pairs@[j]).0@ == k;
                assert(parse_meta_spec(pairs@[j].1@) is Some);
            }
        }
        Ok(out)
    }
}

} // verus!
