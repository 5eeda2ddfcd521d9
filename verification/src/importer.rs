//! Rules of the importer that moves revlog data into a blob store.

use vstd::prelude::*;
use vstd::arithmetic::power::pow;
use vstd::hash_set::StringHashSet;
use vstd::string::{StringExecFns, StringSliceAdditionalSpecFns};
use crate::text::str_equal;

verus! {

/// The bucket of the cloud object store that is used where none is named.
pub const DEFAULT_MANIFOLD_BUCKET: &'static str = "mononoke_prod";

/// The bound of the channel between the parser and the I/O worker that is
/// used where none is given.
pub const DEFAULT_CHANNEL_SIZE: usize = 1000;

/// The last attempt after which a failed store operation is tried again.
pub const LAST_RETRY: usize = 3;

/// Accepts only a value whose type can be cloned.
pub fn _assert_clone<T: Clone>(_value: &T) {
}

/// Accepts only a value whose type can be sent to another thread.
pub fn _assert_send<T: Send>(_value: &T) {
}

/// Accepts only a value whose type borrows nothing.
pub fn _assert_static<T: 'static>(_value: &T) {
}

/// The kind of blob store that the importer writes to.
#[derive(Debug, PartialEq, Eq)]
pub enum BlobstoreType {
    /// Files in a local directory.
    Files,
    /// An embedded LSM store.
    Rocksdb,
    /// A cloud object store, with the bucket to use.
    Manifold(String),
}

/// A `BlobstoreType` as a mathematical value.
pub enum BlobstoreTypeView {
    Files,
    Rocksdb,
    Manifold(Seq<char>),
}

impl View for BlobstoreType {
    type V = BlobstoreTypeView;

    open spec fn view(&self) -> BlobstoreTypeView {
        match self {
            BlobstoreType::Files => BlobstoreTypeView::Files,
            BlobstoreType::Rocksdb => BlobstoreTypeView::Rocksdb,
            BlobstoreType::Manifold(bucket) => BlobstoreTypeView::Manifold(bucket@),
        }
    }
}

/// The kind of blob store that `name` stands for.
pub open spec fn blobstore_type_spec(name: Seq<char>, bucket: Seq<char>) -> Option<
    BlobstoreTypeView,
> {
    if name == "files"@ {
        Some(BlobstoreTypeView::Files)
    } else if name == "rocksdb"@ {
        Some(BlobstoreTypeView::Rocksdb)
    } else if name == "manifold"@ {
        Some(BlobstoreTypeView::Manifold(bucket))
    } else {
        None
    }
}

/// Reads the kind of blob store from its name on the command line:
/// `files`, `rocksdb`, or `manifold`, which takes the bucket with it.
pub fn blobstore_type(name: &str, bucket: &str) -> (r: Option<BlobstoreType>)
    ensures
        match r {
            Some(ty) => blobstore_type_spec(name@, bucket@) == Some(ty@),
            None => blobstore_type_spec(name@, bucket@) is None,
        },
{
    if str_equal(name, "files") {
        Some(BlobstoreType::Files)
    } else if str_equal(name, "rocksdb") {
        Some(BlobstoreType::Rocksdb)
    } else if str_equal(name, "manifold") {
        Some(BlobstoreType::Manifold(String::from_str(bucket)))
    } else {
        None
    }
}

/// Whether the store has to be compacted once the import is done: only an
/// embedded LSM store whose compaction was postponed.
pub fn needs_compaction(blobstore: &BlobstoreType, postpone_compaction: bool) -> (r: bool)
    ensures
        r == (blobstore@ is Rocksdb && postpone_compaction),
{
    match blobstore {
        BlobstoreType::Rocksdb => postpone_compaction,
        _ => false,
    }
}

/// How long to wait, in milliseconds, before a failed store operation is
/// tried again after `attempt` attempts: 100 times 4 to the power of
/// `attempt`, and not at all after more than three.
pub open spec fn retry_delay_spec(attempt: nat) -> Option<int> {
    if attempt > LAST_RETRY {
        None
    } else {
        Some(100 * pow(4, attempt))
    }
}

/// The wait before the next attempt, in milliseconds: 100, 400, 1600 and
/// 6400, then none.
pub fn retry_delay_millis(attempt: usize) -> (r: Option<u64>)
    ensures
        match r {
            Some(ms) => retry_delay_spec(attempt as nat) == Some(ms as int),
            None => retry_delay_spec(attempt as nat) is None,
        },
{
    proof {
        reveal_with_fuel(pow, 5);
    }
    if attempt > LAST_RETRY {
        None
    } else {
        let mut delay: u64 = 100;
        let mut k: usize = 0;
        while k < attempt
            invariant
                k <= attempt <= 3,
                delay == 100 * pow(4, k as nat),
                delay <= 6400,
            decreases attempt - k,
        {
            proof {
                reveal_with_fuel(pow, 5);
            }
            delay = delay * 4;
            k = k + 1;
        }
        Some(delay)
    }
}

/// What the I/O worker does with an entry that the parser sends.
#[derive(Debug, PartialEq, Eq, Clone, Copy, Structural)]
pub enum EntryAction {
    /// Write it to the blob store.
    Put,
    /// Leave it: an entry with its key was written before.
    Skip,
}

/// The manifest entries that the I/O worker has written, by key, so that
/// none is written twice.
pub struct ManifestFilter {
    inserted: StringHashSet,
}

impl View for ManifestFilter {
    type V = Set<Seq<char>>;

    /// The keys that were written.
    closed spec fn view(&self) -> Set<Seq<char>> {
        self.inserted@
    }
}

impl ManifestFilter {
    /// A filter that has seen no key.
    pub fn new() -> (filter: ManifestFilter)
        ensures
            filter@ == Set::<Seq<char>>::empty(),
    {
        ManifestFilter { inserted: StringHashSet::new() }
    }

    /// Decides on the manifest entry with the given key: it is written the
    /// first time its key comes, and skipped after that.
    pub fn decide(&mut self, key: &str) -> (action: EntryAction)
        ensures
            action == if old(self)@.contains(key@) {
                EntryAction::Skip
            } else {
                EntryAction::Put
            },
            final(self)@ == old(self)@.insert(key@),
    {
        if self.inserted.insert(String::from_str(key)) {
            EntryAction::Put
        } else {
            EntryAction::Skip
        }
    }
}

} // verus!
