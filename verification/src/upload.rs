//! Handing resolved file revisions to a blob store, each at most once.

use vstd::prelude::*;
use bytes::Bytes;
use crate::blob::{bytes_content, slices_equal};
use crate::filelog::Filelog;
use crate::nodehash::NodeHash;
use crate::path::{RepoPath, RepoPathView};

verus! {

/// What kind of manifest entry a blob is.
#[derive(Clone, Copy, Debug, PartialEq, Eq, Structural)]
pub enum EntryType {
    File,
    Tree,
}

/// What the blob store is asked to store for one file revision.
#[derive(Debug, PartialEq, Eq)]
pub struct UploadRequest {
    pub blob: Bytes,
    pub entry_type: EntryType,
    pub p1: Option<NodeHash>,
    pub p2: Option<NodeHash>,
    pub path: RepoPath,
}

/// What identifies an upload: the node that the store gave the entry, and
/// its path.
#[derive(Debug, PartialEq, Eq)]
pub struct UploadKey {
    pub node: NodeHash,
    pub path: RepoPath,
}

/// An `UploadKey` as a mathematical value.
pub struct UploadKeyView {
    pub node: NodeHash,
    pub path: RepoPathView,
}

impl View for UploadKey {
    type V = UploadKeyView;

    open spec fn view(&self) -> UploadKeyView {
        UploadKeyView { node: self.node, path: self.path@ }
    }
}

/// Tells whether two paths are the same.
pub fn same_path(a: &RepoPath, b: &RepoPath) -> (same: bool)
    ensures
        same == (a@ == b@),
{
    match (a, b) {
        (RepoPath::Root, RepoPath::Root) => true,
        (RepoPath::Directory(x), RepoPath::Directory(y)) => slices_equal(
            x.as_bytes(),
            y.as_bytes(),
        ),
        (RepoPath::File(x), RepoPath::File(y)) => slices_equal(x.as_bytes(), y.as_bytes()),
        _ => false,
    }
}

impl Filelog {
    /// What the blob store is asked to store for this file revision: its
    /// content as a file entry, with its parents and its path.
    pub fn upload_request(&self) -> (request: UploadRequest)
        ensures
            bytes_content(request.blob) == self@.blob,
            request.entry_type == EntryType::File,
            request.p1 == self.p1,
            request.p2 == self.p2,
            request.path@ == self@.path,
    {
        UploadRequest {
            blob: self.blob.clone(),
            entry_type: EntryType::File,
            p1: self.p1,
            p2: self.p2,
            path: self.path.clone(),
        }
    }
}

/// The views of a list of keys, in order.
pub open spec fn key_views(keys: Seq<UploadKey>) -> Seq<UploadKeyView> {
    Seq::new(keys.len(), |i: int| keys[i]@)
}

/// Where an upload stands in its batch.
#[derive(Clone, Copy, Debug, PartialEq, Eq, Structural)]
pub struct Slot {
    /// The place of the upload among those of the batch.
    pub index: usize,
    /// Whether the key is new to the batch, so that a write has to be
    /// scheduled; where it is not, the upload at `index` is shared.
    pub fresh: bool,
}

/// The uploads of one batch, by key. A key that comes again shares the
/// upload that was scheduled for it.
pub struct UploadBatch {
    keys: Vec<UploadKey>,
}

impl View for UploadBatch {
    type V = Seq<UploadKeyView>;

    /// The keys of the uploads that were scheduled, in order.
    closed spec fn view(&self) -> Seq<UploadKeyView> {
        key_views(self.keys@)
    }
}

impl UploadBatch {
    /// The invariant of the batch: no key was scheduled twice.
    pub open spec fn wf(&self) -> bool {
        self@.no_duplicates()
    }

    /// An empty batch.
    pub fn new() -> (batch: UploadBatch)
        ensures
            batch.wf(),
            batch@ == Seq::<UploadKeyView>::empty(),
    {
        let batch = UploadBatch { keys: Vec::new() };
        assert(batch@ =~= Seq::<UploadKeyView>::empty());
        batch
    }

    /// The number of uploads that were scheduled.
    pub fn len(&self) -> (n: usize)
        ensures
            n == self@.len(),
    {
        self.keys.len()
    }

    /// Finds the upload for `key`, or makes room for a new one behind the
    /// others.
    pub fn schedule(&mut self, key: UploadKey) -> (slot: Slot)
        requires
            old(self).wf(),
        ensures
            final(self).wf(),
            slot.fresh == !old(self)@.contains(key@),
            final(self)@ == if slot.fresh {
                old(self)@.push(key@)
            } else {
                old(self)@
            },
            slot.index < final(self)@.len(),
            final(self)@[slot.index as int] == key@,
    {
        let mut k: usize = 0;
        while k < self.keys.len()
            invariant
                k <= self.keys@.len(),
                *self == *old(self),
                self.wf(),
                forall|i: int| 0 <= i < k ==> (#[trigger] self@[i]) != key@,
            decreases self.keys@.len() - k,
        {
            let held = &self.keys[k];
            assert(self@[k as int] == held@);
            if held.node == key.node && same_path(&held.path, &key.path) {
                return Slot { index: k, fresh: false };
            }
            k = k + 1;
        }
        proof {
            assert(key_views(self.keys@.push(key)) =~= key_views(self.keys@).push(key@));
        }
        self.keys.push(key);
        Slot { index: k, fresh: true }
    }
}

} // verus!
