use vstd::prelude::*;
use crate::protocol::copy_range;

verus! {

/// Why the daemon refuses to start. Startup faults are fatal: they are
/// reported, and the daemon exits instead of serving.
#[derive(Clone, Copy, PartialEq, Eq, Structural, Debug)]
pub enum StartupError {
    /// The entries database could not be opened.
    OpenEntriesDb,
    /// The socket path names no parent directory.
    NoSocketPathParent,
    /// The socket's parent directory could not be created.
    CreateSocketPathParent,
    /// The socket could not be bound.
    BindSocket,
}

/// The path separator byte.
pub const SEPARATOR: u8 = 47;

/// The name of the entries database inside the cache directory, as
/// bytes: "entries".
pub open spec fn entries_db_name() -> Seq<u8> {
    seq![101u8, 110u8, 116u8, 114u8, 105u8, 101u8, 115u8]
}

/// The position of the last separator in a byte path, or -1.
pub open spec fn last_sep(p: Seq<u8>) -> int
    decreases p.len(),
{
    if p.len() == 0 {
        -1
    } else if p.last() == SEPARATOR {
        p.len() - 1
    } else {
        last_sep(p.drop_last())
    }
}

/// A byte path stripped of its trailing separators.
pub open spec fn strip_seps(p: Seq<u8>) -> Seq<u8>
    decreases p.len(),
{
    if p.len() > 0 && p.last() == SEPARATOR {
        strip_seps(p.drop_last())
    } else {
        p
    }
}

/// The parent directory of a byte path, as the platform's path type
/// computes it: trailing separators are ignored, the last component is
/// dropped, and what remains loses its own trailing separators. Only
/// the empty path and a path of separators alone (the root) have no
/// parent; a bare filename has the empty parent, which names the
/// working directory and asks for nothing to be created.
pub open spec fn parent_of(p: Seq<u8>) -> Option<Seq<u8>> {
    let q = strip_seps(p);
    if q.len() == 0 {
        None
    } else {
        let i = last_sep(q);
        if i < 0 {
            Some(Seq::<u8>::empty())
        } else {
            let r = strip_seps(q.take(i));
            if r.len() == 0 {
                if p[0] == SEPARATOR {
                    Some(seq![SEPARATOR])
                } else {
                    Some(Seq::<u8>::empty())
                }
            } else {
                Some(r)
            }
        }
    }
}

proof fn lemma_last_sep_ignores_clean_tail(p: Seq<u8>, i: int)
    requires
        0 <= i <= p.len(),
        forall|l: int| i <= l < p.len() ==> p[l] != SEPARATOR,
    ensures
        last_sep(p) == last_sep(p.take(i)),
    decreases p.len() - i,
{
    if i == p.len() {
        assert(p.take(i) =~= p);
    } else {
        assert(p.last() != SEPARATOR);
        assert(p.drop_last() =~= p.take(p.len() - 1));
        assert(p.take(p.len() - 1).take(i) =~= p.take(i));
        lemma_last_sep_ignores_clean_tail(p.take(p.len() - 1), i);
    }
}

proof fn lemma_strip_seps_suffix(p: Seq<u8>, e: int)
    requires
        0 <= e <= p.len(),
        forall|l: int| e <= l < p.len() ==> p[l] == SEPARATOR,
    ensures
        strip_seps(p) == strip_seps(p.take(e)),
    decreases p.len() - e,
{
    if e == p.len() {
        assert(p.take(e) =~= p);
    } else {
        assert(p.last() == SEPARATOR);
        assert(p.drop_last() =~= p.take(p.len() - 1));
        assert(p.take(p.len() - 1).take(e) =~= p.take(e));
        lemma_strip_seps_suffix(p.take(p.len() - 1), e);
    }
}

/// What assembles a daemon: where the index lives, where blobs live,
/// and where the socket is bound.
pub struct Builder {
    pub cache_dir: Vec<u8>,
    pub data_dir: Vec<u8>,
    pub socket: Vec<u8>,
}

impl Builder {
    pub fn new(cache_dir: Vec<u8>, data_dir: Vec<u8>, socket: Vec<u8>) -> (b: Builder)
        ensures
            b.cache_dir@ == cache_dir@,
            b.data_dir@ == data_dir@,
            b.socket@ == socket@,
    {
        Builder { cache_dir, data_dir, socket }
    }

    /// The path of the entries database: the cache directory joined
    /// with "entries".
    pub fn entries_db_path(&self) -> (p: Vec<u8>)
        ensures
            p@ == self.cache_dir@ + seq![SEPARATOR] + entries_db_name(),
    {
        let mut p = copy_range(&self.cache_dir, 0, self.cache_dir.len());
        proof {
            assert(p@ =~= self.cache_dir@);
        }
        p.push(47);
        p.push(101);
        p.push(110);
        p.push(116);
        p.push(114);
        p.push(105);
        p.push(101);
        p.push(115);
        proof {
            assert(p@ =~= self.cache_dir@ + seq![SEPARATOR] + entries_db_name());
        }
        p
    }

    /// The directory that must exist before the socket can be bound:
    /// the socket path's parent. Only a path that names no parent at
    /// all — the empty path or the root — is a fatal startup fault;
    /// the empty parent of a bare filename asks for nothing.
    pub fn socket_parent(&self) -> (r: Result<Vec<u8>, StartupError>)
        ensures
            match r {
                Ok(p) => parent_of(self.socket@) == Some(p@),
                Err(e) => e == StartupError::NoSocketPathParent && parent_of(self.socket@) is None,
            },
    {
        let n: usize = self.socket.len();
        // Ignore trailing separators.
        let mut e: usize = n;
        while e > 0 && *(&self.socket[e - 1]) == 47
            invariant
                0 <= e <= n,
                n == self.socket@.len(),
                forall|l: int| e <= l < n ==> self.socket@[l] == SEPARATOR,
            decreases e,
        {
            e = e - 1;
        }
        proof {
            lemma_strip_seps_suffix(self.socket@, e as int);
            assert(strip_seps(self.socket@) == self.socket@.take(e as int));
        }
        if e == 0 {
            return Err(StartupError::NoSocketPathParent);
        }
        // Find the separator before the last component.
        let mut i: usize = e;
        while i > 0 && *(&self.socket[i - 1]) != 47
            invariant
                0 <= i <= e,
                e <= n == self.socket@.len(),
                forall|l: int| i <= l < e ==> self.socket@[l] != SEPARATOR,
            decreases i,
        {
            i = i - 1;
        }
        let ghost q = self.socket@.take(e as int);
        proof {
            lemma_last_sep_ignores_clean_tail(q, i as int);
            assert(q.take(i as int) =~= self.socket@.take(i as int));
        }
        if i == 0 {
            proof {
                assert(self.socket@.take(0) =~= Seq::<u8>::empty());
                assert(last_sep(q) == -1);
            }
            return Ok(Vec::new());
        }
        proof {
            assert(self.socket@.take(i as int).last() == SEPARATOR);
            assert(last_sep(q) == i - 1);
            assert(q.take(i - 1) =~= self.socket@.take(i - 1));
        }
        // Drop the separators before the last component as well.
        let mut j: usize = i - 1;
        while j > 0 && *(&self.socket[j - 1]) == 47
            invariant
                0 <= j <= i - 1,
                i <= e <= n == self.socket@.len(),
                forall|l: int| j <= l < i - 1 ==> self.socket@[l] == SEPARATOR,
            decreases j,
        {
            j = j - 1;
        }
        proof {
            lemma_strip_seps_suffix(self.socket@.take(i - 1), j as int);
            assert(self.socket@.take(i - 1).take(j as int) =~= self.socket@.take(j as int));
            assert(strip_seps(q.take(i - 1)) == self.socket@.take(j as int));
        }
        if j == 0 {
            proof {
                assert(self.socket@.take(0) =~= Seq::<u8>::empty());
            }
            if *(&self.socket[0]) == 47 {
                let mut p: Vec<u8> = Vec::new();
                p.push(47);
                proof {
                    assert(p@ =~= seq![SEPARATOR]);
                }
                Ok(p)
            } else {
                Ok(Vec::new())
            }
        } else {
            let p = copy_range(&self.socket, 0, j);
            proof {
                assert(p@ =~= self.socket@.take(j as int));
            }
            Ok(p)
        }
    }
}

} // verus!
