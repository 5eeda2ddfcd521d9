//! File revisions, as they arrive in a changegroup and as they are stored.

use vstd::prelude::*;
use bytes::Bytes;
use crate::blob::{bytes_content, slices_equal};
use crate::delta::{Delta, FragmentView};
use crate::nodehash::{null_hash, NodeHash};
use crate::path::{valid_path, MPath, RepoPath, RepoPathView};

verus! {

/// One record of a changegroup: a node, the node its delta is against, the
/// delta, the two parent slots and the changeset that introduced it. A null
/// `base` stands for the empty buffer, a null parent slot for no parent.
#[derive(Debug, PartialEq, Eq)]
pub struct CgDeltaChunk {
    pub node: NodeHash,
    pub base: NodeHash,
    pub delta: Delta,
    pub p1: NodeHash,
    pub p2: NodeHash,
    pub linknode: NodeHash,
}

/// A file revision that still has to be resolved.
#[derive(Debug, PartialEq, Eq)]
pub struct FilelogDeltaed {
    pub path: MPath,
    pub chunk: CgDeltaChunk,
}

/// A `FilelogDeltaed` as a mathematical value.
pub struct DeltaedView {
    pub path: Seq<u8>,
    pub node: NodeHash,
    pub base: NodeHash,
    pub delta: Seq<FragmentView>,
    pub p1: NodeHash,
    pub p2: NodeHash,
    pub linknode: NodeHash,
}

impl View for FilelogDeltaed {
    type V = DeltaedView;

    open spec fn view(&self) -> DeltaedView {
        DeltaedView {
            path: self.path@,
            node: self.chunk.node,
            base: self.chunk.base,
            delta: self.chunk.delta@,
            p1: self.chunk.p1,
            p2: self.chunk.p2,
            linknode: self.chunk.linknode,
        }
    }
}

/// A file revision with its full content.
#[derive(Debug, PartialEq, Eq)]
pub struct Filelog {
    pub path: RepoPath,
    pub node: NodeHash,
    pub p1: Option<NodeHash>,
    pub p2: Option<NodeHash>,
    pub linknode: NodeHash,
    pub blob: Bytes,
}

/// A `Filelog` as a mathematical value.
pub struct FilelogView {
    pub path: RepoPathView,
    pub node: NodeHash,
    pub p1: Option<NodeHash>,
    pub p2: Option<NodeHash>,
    pub linknode: NodeHash,
    pub blob: Seq<u8>,
}

impl View for Filelog {
    type V = FilelogView;

    open spec fn view(&self) -> FilelogView {
        FilelogView {
            path: self.path@,
            node: self.node,
            p1: self.p1,
            p2: self.p2,
            linknode: self.linknode,
            blob: bytes_content(self.blob),
        }
    }
}

impl Clone for Filelog {
    fn clone(&self) -> (r: Filelog)
        ensures
            r@ == self@,
    {
        Filelog {
            path: self.path.clone(),
            node: self.node,
            p1: self.p1,
            p2: self.p2,
            linknode: self.linknode,
            blob: self.blob.clone(),
        }
    }
}

/// What a parent slot says: nothing where it is null.
pub open spec fn slot_parent(slot: NodeHash) -> Option<NodeHash> {
    if slot.is_null() {
        None
    } else {
        Some(slot)
    }
}

/// What a parent is written as in its slot: null where there is none.
pub open spec fn parent_slot(parent: Option<NodeHash>) -> NodeHash {
    match parent {
        Some(p) => p,
        None => null_hash(),
    }
}

impl FilelogView {
    /// The file revision can be written as a record and read back: it is a
    /// file at a valid path, and no parent is the null node.
    pub open spec fn encodable(self) -> bool {
        &&& self.path matches RepoPathView::File(p) && valid_path(p)
        &&& self.p1 != Some(null_hash())
        &&& self.p2 != Some(null_hash())
    }

    /// The invariant of a resolved file revision: it is a file at a valid
    /// path, its node and its linknode are not null, and no parent is the
    /// null node.
    pub open spec fn wf(self) -> bool {
        &&& self.encodable()
        &&& !self.node.is_null()
        &&& !self.linknode.is_null()
    }
}

/// The path that stands for "no particular path": the file `test`.
pub open spec fn plain_path() -> Seq<u8> {
    seq![116u8, 101u8, 115u8, 116u8]
}

/// The path of the file `test`.
pub fn plain_file() -> (path: RepoPath)
    ensures
        path@ == RepoPathView::File(plain_path()),
{
    let bytes: Vec<u8> = vec![116u8, 101u8, 115u8, 116u8];
    assert(bytes@ =~= plain_path());
    assert(valid_path(bytes@));
    let mpath = MPath::new(bytes.as_slice()).unwrap();
    RepoPath::file(mpath).unwrap()
}

/// Whether field `k` of `f` can be made simpler: the path (0) unless it
/// is `test`, the node (1) and the linknode (4) unless null, a parent (2,
/// 3) unless there is none, the content (5) unless it is empty.
pub open spec fn reducible(f: FilelogView, k: int) -> bool {
    if k == 0 {
        f.path != RepoPathView::File(plain_path()) && f.path != RepoPathView::Directory(
            plain_path(),
        )
    } else if k == 1 {
        !f.node.is_null()
    } else if k == 2 {
        f.p1 is Some
    } else if k == 3 {
        f.p2 is Some
    } else if k == 4 {
        !f.linknode.is_null()
    } else if k == 5 {
        f.blob.len() != 0
    } else {
        false
    }
}

/// `f` with field `k` made as simple as it can be.
pub open spec fn reduced(f: FilelogView, k: int) -> FilelogView {
    if k == 0 {
        FilelogView { path: RepoPathView::File(plain_path()), ..f }
    } else if k == 1 {
        FilelogView { node: null_hash(), ..f }
    } else if k == 2 {
        FilelogView { p1: None, ..f }
    } else if k == 3 {
        FilelogView { p2: None, ..f }
    } else if k == 4 {
        FilelogView { linknode: null_hash(), ..f }
    } else if k == 5 {
        FilelogView { blob: Seq::empty(), ..f }
    } else {
        f
    }
}

/// How many of the fields from `k` on can be made simpler.
pub open spec fn weight_from(f: FilelogView, k: int) -> nat
    decreases 6 - k,
{
    if k >= 6 || k < 0 {
        0
    } else {
        weight_from(f, k + 1) + if reducible(f, k) {
            1nat
        } else {
            0nat
        }
    }
}

/// How many fields of `f` can be made simpler.
pub open spec fn weight(f: FilelogView) -> nat {
    weight_from(f, 0)
}

/// Making a field simpler that can be made so leaves one field less that
/// can.
pub proof fn lemma_reduced_weight(f: FilelogView, k: int)
    requires
        0 <= k < 6,
        reducible(f, k),
    ensures
        weight(reduced(f, k)) + 1 == weight(f),
{
    crate::nodehash::lemma_null_hash(null_hash());
    reveal_with_fuel(weight_from, 7);
}

/// The simpler file revisions that the fields from `k` on give: for each
/// that can be made simpler, in order, all that are simpler than `f` with
/// that field made simple, and then that one itself.
pub open spec fn shrink_from(f: FilelogView, k: int) -> Seq<FilelogView>
    decreases weight(f), 6 - k,
    via shrink_from_decreases
{
    if k >= 6 || k < 0 {
        Seq::empty()
    } else if reducible(f, k) {
        shrink_from(reduced(f, k), 0) + seq![reduced(f, k)] + shrink_from(f, k + 1)
    } else {
        shrink_from(f, k + 1)
    }
}

#[via_fn]
proof fn shrink_from_decreases(f: FilelogView, k: int) {
    if 0 <= k < 6 && reducible(f, k) {
        lemma_reduced_weight(f, k);
    }
}

/// All file revisions that are simpler than `f`.
pub open spec fn shrink_spec(f: FilelogView) -> Seq<FilelogView> {
    shrink_from(f, 0)
}

/// The views of a list of file revisions, in order.
pub open spec fn filelog_views(filelogs: Seq<Filelog>) -> Seq<FilelogView> {
    Seq::new(filelogs.len(), |i: int| filelogs[i]@)
}

fn push_shrunk(result: &mut Vec<Filelog>, f: Filelog)
    ensures
        filelog_views(final(result)@) == filelog_views(old(result)@) + shrink_spec(f@) + seq![f@],
    decreases weight(f@), 1int,
{
    let ghost before = filelog_views(result@);
    let mut simpler = f.shrink();
    let ghost middle = filelog_views(simpler@);
    result.append(&mut simpler);
    result.push(f);
    assert(filelog_views(result@) =~= before + middle + seq![f@]);
}

impl Filelog {
    /// Tells whether the file revision meets its invariant.
    pub fn is_wf(&self) -> (ok: bool)
        ensures
            ok == self@.wf(),
    {
        proof {
            crate::nodehash::lemma_null_hash(self.node);
            crate::nodehash::lemma_null_hash(self.linknode);
            if let Some(p) = self.p1 {
                crate::nodehash::lemma_null_hash(p);
            }
            if let Some(p) = self.p2 {
                crate::nodehash::lemma_null_hash(p);
            }
        }
        let valid_file = match &self.path {
            RepoPath::File(p) => p.is_valid(),
            _ => false,
        };
        let p1_ok = match self.p1 {
            Some(p) => p.into_option().is_some(),
            None => true,
        };
        let p2_ok = match self.p2 {
            Some(p) => p.into_option().is_some(),
            None => true,
        };
        valid_file && p1_ok && p2_ok && self.node.into_option().is_some()
            && self.linknode.into_option().is_some()
    }

    /// Makes a file revision of raw parts: the path is read from bytes, and
    /// is the file `test` where they are no valid path; a null parent slot
    /// is no parent.
    pub fn from_raw(
        path: &[u8],
        node: NodeHash,
        p1: NodeHash,
        p2: NodeHash,
        linknode: NodeHash,
        blob: Vec<u8>,
    ) -> (f: Filelog)
        ensures
            f@ == (FilelogView {
                path: RepoPathView::File(
                    if valid_path(path@) {
                        path@
                    } else {
                        plain_path()
                    },
                ),
                node,
                p1: slot_parent(p1),
                p2: slot_parent(p2),
                linknode,
                blob: blob@,
            }),
    {
        let path = match MPath::new(path) {
            Ok(mpath) => match RepoPath::file(mpath) {
                Ok(file) => file,
                Err(_) => plain_file(),
            },
            Err(_) => plain_file(),
        };
        Filelog {
            path,
            node,
            p1: p1.into_option(),
            p2: p2.into_option(),
            linknode,
            blob: Bytes::from(blob),
        }
    }

    /// This file revision with field `k` made as simple as it can be, where
    /// it can be made simpler.
    pub fn reduce_field(&self, k: usize) -> (r: Option<Filelog>)
        ensures
            r is Some <==> reducible(self@, k as int),
            r matches Some(f) ==> f@ == reduced(self@, k as int),
    {
        let null = NodeHash::null();
        proof {
            crate::nodehash::lemma_null_hash(self.node);
            crate::nodehash::lemma_null_hash(self.linknode);
        }
        let mut f = self.clone();
        if k == 0 {
            let plain = plain_file();
            let is_plain = match (self.path.mpath(), plain.mpath()) {
                (Some(mine), Some(test)) => slices_equal(mine.as_bytes(), test.as_bytes()),
                _ => false,
            };
            if is_plain {
                return None;
            }
            f.path = plain;
        } else if k == 1 {
            if self.node == null {
                return None;
            }
            f.node = null;
        } else if k == 2 {
            if self.p1.is_none() {
                return None;
            }
            f.p1 = None;
        } else if k == 3 {
            if self.p2.is_none() {
                return None;
            }
            f.p2 = None;
        } else if k == 4 {
            if self.linknode == null {
                return None;
            }
            f.linknode = null;
        } else if k == 5 {
            if self.blob.len() == 0 {
                return None;
            }
            f.blob = Bytes::from(Vec::new());
        } else {
            return None;
        }
        Some(f)
    }

    /// All file revisions that are simpler than this one: for each field
    /// that can be made simpler, in order, what is simpler than this one
    /// with that field made simple, and then that one itself.
    pub fn shrink(&self) -> (result: Vec<Filelog>)
        ensures
            filelog_views(result@) == shrink_spec(self@),
        decreases weight(self@), 0int,
    {
        let mut result: Vec<Filelog> = Vec::new();
        assert(filelog_views(result@) =~= Seq::<FilelogView>::empty());
        let mut k: usize = 0;
        while k < 6
            invariant
                k <= 6,
                filelog_views(result@) + shrink_from(self@, k as int) == shrink_spec(self@),
            decreases 6 - k,
        {
            match self.reduce_field(k) {
                Some(f) => {
                    proof {
                        lemma_reduced_weight(self@, k as int);
                        assert(filelog_views(result@) + shrink_spec(f@) + seq![f@] + shrink_from(
                            self@,
                            k + 1,
                        ) =~= filelog_views(result@) + shrink_from(self@, k as int));
                    }
                    push_shrunk(&mut result, f);
                },
                None => {},
            }
            k = k + 1;
        }
        assert(filelog_views(result@) + shrink_from(self@, 6) =~= filelog_views(result@));
        result
    }
}

} // verus!
