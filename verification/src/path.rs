//! Repository paths.

use vstd::prelude::*;
use crate::errors::{Error, ErrorKind};

verus! {

/// The byte that separates the components of a path.
pub const SEPARATOR: u8 = 47;

/// A path is valid when it is not empty, holds no NUL, and none of its
/// components, the stretches between separators, is empty.
pub open spec fn valid_path(p: Seq<u8>) -> bool {
    &&& p.len() > 0
    &&& forall|i: int| 0 <= i < p.len() ==> #[trigger] p[i] != 0
    &&& p[0] != SEPARATOR
    &&& p[p.len() - 1] != SEPARATOR
    &&& forall|i: int, j: int|
        0 <= i && j == i + 1 && j < p.len() ==> !(#[trigger] p[i] == SEPARATOR && #[trigger] p[j]
            == SEPARATOR)
}

/// Tells whether `p` is a valid path.
pub fn check_path(p: &[u8]) -> (ok: bool)
    ensures
        ok == valid_path(p@),
{
    let n = p.len();
    if n == 0 {
        return false;
    }
    if p[0] == SEPARATOR || p[n - 1] == SEPARATOR {
        return false;
    }
    let mut k: usize = 0;
    while k < n
        invariant
            k <= n,
            n == p@.len(),
            forall|i: int| 0 <= i < k ==> #[trigger] p@[i] != 0,
            forall|i: int, j: int|
                0 <= i && j == i + 1 && j < k ==> !(#[trigger] p@[i] == SEPARATOR
                    && #[trigger] p@[j] == SEPARATOR),
        decreases n - k,
    {
        if p[k] == 0 {
            return false;
        }
        if k > 0 && p[k] == SEPARATOR && p[k - 1] == SEPARATOR {
            assert(!valid_path(p@)) by {
                let i = k - 1;
                let j = k as int;
                assert(p@[i] == SEPARATOR && p@[j] == SEPARATOR);
            }
            return false;
        }
        k = k + 1;
    }
    true
}

/// A file path as a byte string.
#[derive(Debug, PartialEq, Eq)]
pub struct MPath {
    bytes: Vec<u8>,
}

impl View for MPath {
    type V = Seq<u8>;

    closed spec fn view(&self) -> Seq<u8> {
        self.bytes@
    }
}

impl Clone for MPath {
    fn clone(&self) -> (r: MPath)
        ensures
            r@ == self@,
    {
        MPath { bytes: self.bytes.clone() }
    }
}

impl MPath {
    /// Makes a path of `p`, or rejects it as invalid.
    pub fn new(p: &[u8]) -> (r: Result<MPath, Error>)
        ensures
            r is Ok <==> valid_path(p@),
            r matches Ok(m) ==> m@ == p@,
            r matches Err(e) ==> e == (Error { kind: ErrorKind::InvalidPath, context: None }),
    {
        if check_path(p) {
            Ok(MPath { bytes: vstd::slice::slice_to_vec(p) })
        } else {
            Err(Error::new(ErrorKind::InvalidPath))
        }
    }

    /// The bytes of the path.
    pub fn as_bytes(&self) -> (r: &[u8])
        ensures
            r@ == self@,
    {
        self.bytes.as_slice()
    }

    /// Tells whether the path is valid.
    pub fn is_valid(&self) -> (ok: bool)
        ensures
            ok == valid_path(self@),
    {
        check_path(self.bytes.as_slice())
    }
}

/// A path together with what it names.
#[derive(Debug, PartialEq, Eq)]
pub enum RepoPath {
    Root,
    Directory(MPath),
    File(MPath),
}

/// A `RepoPath` as a mathematical value.
pub enum RepoPathView {
    Root,
    Directory(Seq<u8>),
    File(Seq<u8>),
}

impl View for RepoPath {
    type V = RepoPathView;

    open spec fn view(&self) -> RepoPathView {
        match self {
            RepoPath::Root => RepoPathView::Root,
            RepoPath::Directory(p) => RepoPathView::Directory(p@),
            RepoPath::File(p) => RepoPathView::File(p@),
        }
    }
}

impl Clone for RepoPath {
    fn clone(&self) -> (r: RepoPath)
        ensures
            r@ == self@,
    {
        match self {
            RepoPath::Root => RepoPath::Root,
            RepoPath::Directory(p) => RepoPath::Directory(p.clone()),
            RepoPath::File(p) => RepoPath::File(p.clone()),
        }
    }
}

impl RepoPath {
    /// The path of a file; fails unless `path` is valid.
    pub fn file(path: MPath) -> (r: Result<RepoPath, Error>)
        ensures
            r is Ok <==> valid_path(path@),
            r matches Ok(p) ==> p@ == RepoPathView::File(path@),
            r matches Err(e) ==> e == (Error { kind: ErrorKind::InvalidPath, context: None }),
    {
        if path.is_valid() {
            Ok(RepoPath::File(path))
        } else {
            Err(Error::new(ErrorKind::InvalidPath))
        }
    }

    /// The path of a directory; fails unless `path` is valid.
    pub fn dir(path: MPath) -> (r: Result<RepoPath, Error>)
        ensures
            r is Ok <==> valid_path(path@),
            r matches Ok(p) ==> p@ == RepoPathView::Directory(path@),
            r matches Err(e) ==> e == (Error { kind: ErrorKind::InvalidPath, context: None }),
    {
        if path.is_valid() {
            Ok(RepoPath::Directory(path))
        } else {
            Err(Error::new(ErrorKind::InvalidPath))
        }
    }

    /// The path inside, where there is one.
    pub fn mpath(&self) -> (r: Option<&MPath>)
        ensures
            match self@ {
                RepoPathView::Root => r is None,
                RepoPathView::Directory(p) => r matches Some(m) && m@ == p,
                RepoPathView::File(p) => r matches Some(m) && m@ == p,
            },
    {
        match self {
            RepoPath::Root => None,
            RepoPath::Directory(p) => Some(p),
            RepoPath::File(p) => Some(p),
        }
    }
}

} // verus!
