use bytes::Bytes;
use mononoke::blob::slices_equal;
use mononoke::filelog::{plain_file, Filelog};
use mononoke::importer::{
    _assert_clone, _assert_send, _assert_static, blobstore_type, needs_compaction,
    retry_delay_millis, BlobstoreType, EntryAction, ManifestFilter, DEFAULT_CHANNEL_SIZE,
    DEFAULT_MANIFOLD_BUCKET, LAST_RETRY,
};
use mononoke::nodehash::NodeHash;
use mononoke::path::{MPath, RepoPath};
use mononoke::upload::{same_path, EntryType, Slot, UploadBatch, UploadKey};

fn hash(byte: u8) -> NodeHash {
    NodeHash { bytes: [byte; 20] }
}

fn file(path: &[u8]) -> RepoPath {
    RepoPath::file(MPath::new(path).unwrap()).unwrap()
}

#[test]
fn blobstore_type_by_name() {
    assert_eq!(blobstore_type("files", "b"), Some(BlobstoreType::Files));
    assert_eq!(blobstore_type("rocksdb", "b"), Some(BlobstoreType::Rocksdb));
    assert_eq!(
        blobstore_type("manifold", DEFAULT_MANIFOLD_BUCKET),
        Some(BlobstoreType::Manifold("mononoke_prod".to_string()))
    );
    assert_eq!(blobstore_type("Files", "b"), None);
    assert_eq!(blobstore_type("", "b"), None);
    assert_eq!(DEFAULT_CHANNEL_SIZE, 1000);
    assert_eq!(LAST_RETRY, 3);
}

#[test]
fn retry_schedule() {
    assert_eq!(retry_delay_millis(0), Some(100));
    assert_eq!(retry_delay_millis(1), Some(400));
    assert_eq!(retry_delay_millis(2), Some(1600));
    assert_eq!(retry_delay_millis(3), Some(6400));
    assert_eq!(retry_delay_millis(4), None);
    assert_eq!(retry_delay_millis(usize::MAX), None);
}

#[test]
fn compaction_only_when_postponed_on_rocksdb() {
    assert!(needs_compaction(&BlobstoreType::Rocksdb, true));
    assert!(!needs_compaction(&BlobstoreType::Rocksdb, false));
    assert!(!needs_compaction(&BlobstoreType::Files, true));
    assert!(!needs_compaction(&BlobstoreType::Manifold("b".to_string()), true));
}

#[test]
fn manifest_entries_are_written_once() {
    let mut filter = ManifestFilter::new();
    assert_eq!(filter.decide("node-1"), EntryAction::Put);
    assert_eq!(filter.decide("node-2"), EntryAction::Put);
    assert_eq!(filter.decide("node-1"), EntryAction::Skip);
    assert_eq!(filter.decide("node-1"), EntryAction::Skip);
    assert_eq!(filter.decide(""), EntryAction::Put);
    assert_eq!(filter.decide(""), EntryAction::Skip);
}

#[test]
fn type_assertions_accept_values() {
    let store = std::sync::Arc::new(5u32);
    _assert_clone(&store);
    _assert_send(&store);
    _assert_static(&store);
}

#[test]
fn upload_batch_shares_keys() {
    let mut batch = UploadBatch::new();
    let first = batch.schedule(UploadKey { node: hash(1), path: file(b"a") });
    assert_eq!(first, Slot { index: 0, fresh: true });
    let second = batch.schedule(UploadKey { node: hash(1), path: file(b"b") });
    assert_eq!(second, Slot { index: 1, fresh: true });
    let third = batch.schedule(UploadKey { node: hash(2), path: file(b"a") });
    assert_eq!(third, Slot { index: 2, fresh: true });
    let again = batch.schedule(UploadKey { node: hash(1), path: file(b"b") });
    assert_eq!(again, Slot { index: 1, fresh: false });
    let dir = RepoPath::dir(MPath::new(b"a").unwrap()).unwrap();
    let other = batch.schedule(UploadKey { node: hash(1), path: dir });
    assert_eq!(other, Slot { index: 3, fresh: true });
    assert_eq!(batch.len(), 4);
}

#[test]
fn paths_and_slices_compare() {
    assert!(same_path(&RepoPath::Root, &RepoPath::Root));
    assert!(same_path(&file(b"a/b"), &file(b"a/b")));
    assert!(!same_path(&file(b"a/b"), &file(b"a/c")));
    assert!(!same_path(&file(b"a"), &RepoPath::dir(MPath::new(b"a").unwrap()).unwrap()));
    assert!(!same_path(&file(b"a"), &RepoPath::Root));
    assert!(slices_equal(b"", b""));
    assert!(slices_equal(b"abc", b"abc"));
    assert!(!slices_equal(b"abc", b"abd"));
    assert!(!slices_equal(b"abc", b"ab"));
}

#[test]
fn upload_request_is_a_file_entry() {
    let f = Filelog {
        path: file(b"dir/name"),
        node: hash(9),
        p1: Some(hash(1)),
        p2: None,
        linknode: hash(3),
        blob: Bytes::from("content"),
    };
    let request = f.upload_request();
    assert_eq!(request.blob, Bytes::from("content"));
    assert_eq!(request.entry_type, EntryType::File);
    assert_eq!(request.p1, Some(hash(1)));
    assert_eq!(request.p2, None);
    assert_eq!(request.path, file(b"dir/name"));
}

#[test]
fn from_raw_falls_back_to_plain_path() {
    let f = Filelog::from_raw(b"a//b", hash(1), NodeHash::null(), hash(2), hash(3), b"x".to_vec());
    assert_eq!(
        f,
        Filelog {
            path: file(b"test"),
            node: hash(1),
            p1: None,
            p2: Some(hash(2)),
            linknode: hash(3),
            blob: Bytes::from("x"),
        }
    );
    let g = Filelog::from_raw(b"a/b", hash(1), hash(4), NodeHash::null(), hash(3), vec![]);
    assert_eq!(g.path, file(b"a/b"));
    assert_eq!(g.p1, Some(hash(4)));
    assert_eq!(g.p2, None);
    assert!(g.blob.is_empty());
    assert_eq!(plain_file(), file(b"test"));
}

#[test]
fn shrink_lists_simpler_revisions() {
    let minimal = Filelog {
        path: file(b"test"),
        node: NodeHash::null(),
        p1: None,
        p2: None,
        linknode: NodeHash::null(),
        blob: Bytes::new(),
    };
    assert_eq!(minimal.shrink(), vec![]);

    let mut one = minimal.clone();
    one.node = hash(1);
    assert_eq!(one.shrink(), vec![minimal.clone()]);
    assert_eq!(one.reduce_field(1), Some(minimal.clone()));
    assert_eq!(one.reduce_field(0), None);
    assert_eq!(one.reduce_field(6), None);

    let mut two = one.clone();
    two.blob = Bytes::from("x");
    let mut only_blob = minimal.clone();
    only_blob.blob = Bytes::from("x");
    assert_eq!(
        two.shrink(),
        vec![minimal.clone(), only_blob, minimal.clone(), one.clone()]
    );

    let full = Filelog {
        path: file(b"other"),
        node: hash(1),
        p1: Some(hash(2)),
        p2: Some(hash(3)),
        linknode: hash(4),
        blob: Bytes::from("content"),
    };
    let shrunk = full.shrink();
    assert_eq!(shrunk.len(), 1956);
    assert_eq!(shrunk[0], minimal);
    let mut last = full.clone();
    last.blob = Bytes::new();
    assert_eq!(shrunk[1955], last);
    let mut first_direct = full.clone();
    first_direct.path = file(b"test");
    assert_eq!(shrunk[325], first_direct);
    assert_eq!(full.reduce_field(0), Some(first_direct));

    let mut dir = minimal.clone();
    dir.path = RepoPath::dir(MPath::new(b"test").unwrap()).unwrap();
    assert_eq!(dir.shrink(), vec![]);
    let mut root = minimal.clone();
    root.path = RepoPath::Root;
    assert_eq!(root.shrink(), vec![minimal]);
}
