use vstd::prelude::*;
use std::collections::HashMap;
use crate::hash::{content_hash, fnv64};

verus! {

broadcast use vstd::std_specs::hash::group_hash_axioms;

/// What storing `bytes` does to the visible contents: nothing if a blob
/// already sits at their address, else the full bytes appear there.
pub open spec fn put_effect(m: Map<u64, Seq<u8>>, bytes: Seq<u8>) -> Map<u64, Seq<u8>> {
    if m.contains_key(fnv64(bytes)) {
        m
    } else {
        m.insert(fnv64(bytes), bytes)
    }
}

/// The atomic-publish guarantee: a blob becomes visible only whole.
/// However a store of `bytes` is interrupted — before the staged copy
/// is published, or after — the visible contents hold either nothing
/// new or the complete blob under the digest of its full content;
/// partial content is never observable.
pub proof fn lemma_atomic_publish(m: Map<u64, Seq<u8>>, bytes: Seq<u8>)
    requires
        forall|h: u64| #[trigger] m.contains_key(h) ==> fnv64(m[h]) == h,
    ensures
        put_effect(m, bytes) == m || put_effect(m, bytes) == m.insert(fnv64(bytes), bytes),
        forall|h: u64| #[trigger]
            put_effect(m, bytes).contains_key(h) ==> fnv64(put_effect(m, bytes)[h]) == h,
{
    let post = put_effect(m, bytes);
    assert forall|h: u64| #[trigger] post.contains_key(h) implies fnv64(post[h]) == h by {
        if !m.contains_key(fnv64(bytes)) && h == fnv64(bytes) {
            assert(post[h] == bytes);
        } else {
            assert(post[h] == m[h]);
        }
    }
}

/// Content-addressed storage of immutable blobs. A blob is visible only
/// under the digest of its full content, and only once it has been
/// published whole: readers never observe a partially written blob.
pub struct ContentStore {
    blobs: HashMap<u64, Vec<u8>>,
}

/// A blob written out in full to a temporary location but not yet
/// published under its final address. Until `publish` runs, no reader
/// of the store can observe it; dropping it undoes the write.
pub struct StagedBlob {
    bytes: Vec<u8>,
    hash: u64,
}

impl StagedBlob {
    /// The full content of the staged write.
    pub closed spec fn bytes_spec(&self) -> Seq<u8> {
        self.bytes@
    }

    /// The address the blob will be published under.
    pub closed spec fn hash_spec(&self) -> u64 {
        self.hash
    }

    /// A staged blob carries the digest of exactly its own content.
    pub open spec fn wf(&self) -> bool {
        self.hash_spec() == fnv64(self.bytes_spec())
    }

    /// The address the blob will be published under.
    pub fn hash(&self) -> (h: u64)
        ensures
            h == self.hash_spec(),
    {
        self.hash
    }
}

impl ContentStore {
    /// The visible contents: the bytes of each published blob, at the
    /// blob's content address.
    pub closed spec fn view(&self) -> Map<u64, Seq<u8>> {
        self.blobs@.map_values(|b: Vec<u8>| b@)
    }

    /// Every visible blob is complete and hash-verified: it sits under
    /// exactly the digest of its full content.
    pub open spec fn wf(&self) -> bool {
        forall|h: u64| #[trigger] self@.contains_key(h) ==> fnv64(self@[h]) == h
    }

    /// An empty store.
    pub fn new() -> (s: Self)
        ensures
            s@ == Map::<u64, Seq<u8>>::empty(),
            s.wf(),
    {
        let s = ContentStore { blobs: HashMap::new() };
        proof {
            assert(s@ =~= Map::<u64, Seq<u8>>::empty());
        }
        s
    }

    /// Whether a blob is present under address `h`.
    pub fn contains(&self, h: u64) -> (r: bool)
        ensures
            r == self@.contains_key(h),
    {
        let r = self.blobs.contains_key(&h);
        proof {
            assert(self@.contains_key(h) == self.blobs@.contains_key(h));
        }
        r
    }

    /// Reads the blob at address `h`; a missing address is reported,
    /// never answered with partial content.
    pub fn get(&self, h: u64) -> (r: Option<&Vec<u8>>)
        ensures
            match r {
                Some(b) => self@.contains_key(h) && b@ == self@[h],
                None => !self@.contains_key(h),
            },
    {
        let r = self.blobs.get(&h);
        proof {
            assert(self@.contains_key(h) == self.blobs@.contains_key(h));
        }
        r
    }

    /// Writes `bytes` in full to a temporary location and computes their
    /// content address. Nothing becomes visible in the store: a process
    /// interrupted here leaves the visible contents exactly as they were.
    pub fn stage(bytes: Vec<u8>) -> (staged: StagedBlob)
        ensures
            staged.wf(),
            staged.bytes_spec() == bytes@,
            staged.hash_spec() == fnv64(bytes@),
    {
        let hash = content_hash(&bytes);
        StagedBlob { bytes, hash }
    }

    /// Atomically publishes a fully staged blob under its content
    /// address. If a blob already sits at that address the staged copy
    /// is discarded: identical content is stored once.
    pub fn publish(&mut self, staged: StagedBlob) -> (h: u64)
        requires
            old(self).wf(),
            staged.wf(),
        ensures
            h == staged.hash_spec(),
            final(self).wf(),
            final(self)@ == put_effect(old(self)@, staged.bytes_spec()),
            final(self)@.contains_key(h),
    {
        let h = staged.hash;
        if self.blobs.contains_key(&h) {
            proof {
                assert(self@.contains_key(h) == self.blobs@.contains_key(h));
            }
            h
        } else {
            proof {
                assert(self@.contains_key(h) == self.blobs@.contains_key(h));
            }
            self.blobs.insert(h, staged.bytes);
            proof {
                assert(self@ =~= old(self)@.insert(h, staged.bytes_spec()));
            }
            h
        }
    }

    /// Stores `bytes`, staging and then atomically publishing them, and
    /// returns their content address. Idempotent and deduplicating: if a
    /// blob already sits at that address, the store is left unchanged.
    pub fn put(&mut self, bytes: Vec<u8>) -> (h: u64)
        requires
            old(self).wf(),
        ensures
            h == fnv64(bytes@),
            final(self).wf(),
            final(self)@ == put_effect(old(self)@, bytes@),
            final(self)@.contains_key(h),
    {
        let staged = Self::stage(bytes);
        self.publish(staged)
    }

    /// Removes the blob at address `h`; reports whether one was there.
    pub fn delete(&mut self, h: u64) -> (r: bool)
        requires
            old(self).wf(),
        ensures
            r == old(self)@.contains_key(h),
            final(self)@ == old(self)@.remove(h),
            final(self).wf(),
    {
        proof {
            assert(self@.contains_key(h) == self.blobs@.contains_key(h));
        }
        let prior = self.blobs.remove(&h);
        proof {
            assert(self@ =~= old(self)@.remove(h));
        }
        prior.is_some()
    }

    /// The reclamation pass over the store: removes every blob whose
    /// address is not named in `referenced`, keeping the rest untouched.
    /// A blob may outlive the last entry that referenced it until this
    /// pass runs; it is deleted only once unreferenced.
    pub fn sweep(&mut self, referenced: &Vec<u64>)
        requires
            old(self).wf(),
        ensures
            final(self).wf(),
            forall|h: u64|
                #[trigger] final(self)@.contains_key(h) <==> (old(self)@.contains_key(h)
                    && referenced@.contains(h)),
            forall|h: u64|
                #[trigger] final(self)@.contains_key(h) ==> final(self)@[h] == old(self)@[h],
    {
        let mut kept: HashMap<u64, Vec<u8>> = HashMap::new();
        let ghost old_view = self@;
        proof {
            assert(kept@.map_values(|b: Vec<u8>| b@) =~= Map::<u64, Seq<u8>>::empty());
        }
        let mut i: usize = 0;
        while i < referenced.len()
            invariant
                0 <= i <= referenced@.len(),
                self@ == old_view,
                old(self).wf(),
                self.wf(),
                forall|h: u64|
                    #[trigger] kept@.contains_key(h) <==> (old_view.contains_key(h)
                        && referenced@.take(i as int).contains(h)),
                forall|h: u64|
                    #[trigger] kept@.contains_key(h) ==> kept@[h]@ == old_view[h],
            decreases referenced@.len() - i,
        {
            let h = referenced[i];
            match self.blobs.get(&h) {
                Some(b) => {
                    let copy = crate::protocol::copy_range(b, 0, b.len());
                    proof {
                        assert(self@.contains_key(h) == self.blobs@.contains_key(h));
                        assert(copy@ =~= self@[h]);
                    }
                    kept.insert(h, copy);
                },
                None => {
                    proof {
                        assert(self@.contains_key(h) == self.blobs@.contains_key(h));
                    }
                },
            }
            proof {
                assert forall|g: u64| #[trigger]
                    referenced@.take(i as int + 1).contains(g) implies (referenced@.take(
                    i as int,
                ).contains(g) || g == referenced@[i as int]) by {
                    let j = choose|j: int|
                        0 <= j < i + 1 && (#[trigger] referenced@.take(i as int + 1)[j]) == g;
                    if j < i {
                        assert(referenced@.take(i as int)[j] == g);
                    }
                }
                assert forall|g: u64| #[trigger]
                    referenced@.take(i as int).contains(g) implies referenced@.take(
                    i as int + 1,
                ).contains(g) by {
                    let j = choose|j: int|
                        0 <= j < i && (#[trigger] referenced@.take(i as int)[j]) == g;
                    assert(referenced@.take(i as int + 1)[j] == g);
                }
                assert(referenced@.take(i as int + 1)[i as int] == referenced@[i as int]);
            }
            i = i + 1;
        }
        proof {
            assert(referenced@.take(referenced@.len() as int) =~= referenced@);
        }
        self.blobs = kept;
    }

    /// How many distinct blobs are visible.
    pub fn blob_count(&self) -> (n: usize)
        ensures
            n == self@.dom().len(),
    {
        let n = self.blobs.len();
        proof {
            assert(self@.dom() =~= self.blobs@.dom());
        }
        n
    }
}

} // verus!
