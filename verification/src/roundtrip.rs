//! Writing file revisions as changegroup records, and what resolving such
//! records gives back.

use vstd::prelude::*;
use crate::delta::{apply_spec, fits, patched_prefix, Delta, FragmentView};
use crate::diff::{compute_delta, diff_spec, lemma_diff_roundtrip};
use crate::errors::Error;
use crate::filelog::{
    parent_slot, slot_parent, CgDeltaChunk, DeltaedView, Filelog, FilelogDeltaed, FilelogView,
};
use crate::nodehash::{lemma_null_hash, null_hash, NodeHash};
use crate::path::RepoPathView;
use crate::resolver::{stream_result, stream_upto};

verus! {

/// The bytes of the path of a file revision (of a revision at the root,
/// none).
pub open spec fn path_bytes(path: RepoPathView) -> Seq<u8> {
    match path {
        RepoPathView::Root => Seq::empty(),
        RepoPathView::Directory(p) => p,
        RepoPathView::File(p) => p,
    }
}

/// The record that brings `f` whole: no base, and a delta of one fragment
/// with all of its content.
pub open spec fn fulltext_record(f: FilelogView) -> DeltaedView {
    DeltaedView {
        path: path_bytes(f.path),
        node: f.node,
        base: null_hash(),
        delta: seq![FragmentView { start: 0, end: 0, content: f.blob }],
        p1: parent_slot(f.p1),
        p2: parent_slot(f.p2),
        linknode: f.linknode,
    }
}

/// The record that brings `f` as a delta against `prev`.
pub open spec fn delta_record(prev: FilelogView, f: FilelogView) -> DeltaedView {
    DeltaedView {
        path: path_bytes(f.path),
        node: f.node,
        base: prev.node,
        delta: diff_spec(prev.blob, f.blob),
        p1: parent_slot(f.p1),
        p2: parent_slot(f.p2),
        linknode: f.linknode,
    }
}

fn slot_of(parent: Option<NodeHash>) -> (slot: NodeHash)
    ensures
        slot == parent_slot(parent),
{
    match parent {
        Some(p) => p,
        None => NodeHash::null(),
    }
}

/// Writes `f` as a record that brings it whole.
pub fn filelog_to_deltaed(f: &Filelog) -> (rec: FilelogDeltaed)
    requires
        f@.path !is Root,
    ensures
        rec@ == fulltext_record(f@),
{
    let path = match f.path.mpath() {
        Some(p) => p.clone(),
        None => vstd::pervasive::unreached(),
    };
    FilelogDeltaed {
        path,
        chunk: CgDeltaChunk {
            node: f.node,
            base: NodeHash::null(),
            delta: Delta::new_fulltext(f.blob.as_ref()),
            p1: slot_of(f.p1),
            p2: slot_of(f.p2),
            linknode: f.linknode,
        },
    }
}

/// Writes `f` as a record that brings it as a delta against `prev`.
pub fn filelog_to_delta_against(prev: &Filelog, f: &Filelog) -> (rec: FilelogDeltaed)
    requires
        f@.path !is Root,
    ensures
        rec@ == delta_record(prev@, f@),
{
    let path = match f.path.mpath() {
        Some(p) => p.clone(),
        None => vstd::pervasive::unreached(),
    };
    FilelogDeltaed {
        path,
        chunk: CgDeltaChunk {
            node: f.node,
            base: prev.node,
            delta: compute_delta(prev.blob.as_ref(), f.blob.as_ref()),
            p1: slot_of(f.p1),
            p2: slot_of(f.p2),
            linknode: f.linknode,
        },
    }
}

/// Record `i` brings `all[i]`, whole or as a delta against a file revision
/// that comes before it and whose node is not null.
pub open spec fn brings(recs: Seq<DeltaedView>, all: Seq<FilelogView>, i: int) -> bool {
    ||| recs[i] == fulltext_record(all[i])
    ||| exists|j: int|
        0 <= j < i && !(#[trigger] all[j]).node.is_null() && recs[i] == delta_record(
            all[j],
            all[i],
        )
}

/// The stream `recs` brings the file revisions `all`, one record each, with
/// every base inside the stream.
pub open spec fn self_contained(recs: Seq<DeltaedView>, all: Seq<FilelogView>) -> bool {
    &&& recs.len() == all.len()
    &&& forall|i: int| 0 <= i < all.len() ==> brings(recs, all, i)
}

/// Every file revision meets its invariant.
pub open spec fn all_wf(all: Seq<FilelogView>) -> bool {
    forall|i: int| 0 <= i < all.len() ==> (#[trigger] all[i]).wf()
}

/// Every file revision can be written as a record.
pub open spec fn all_encodable(all: Seq<FilelogView>) -> bool {
    forall|i: int| 0 <= i < all.len() ==> (#[trigger] all[i]).encodable()
}

/// No two file revisions have the same node.
pub open spec fn unique_nodes(all: Seq<FilelogView>) -> bool {
    forall|i: int, j: int|
        0 <= i < j < all.len() ==> (#[trigger] all[i]).node != (#[trigger] all[j]).node
}

/// The cache holds the contents of the first `k` file revisions and
/// nothing else.
pub open spec fn holds_contents(
    cache: Map<NodeHash, Result<Seq<u8>, Error>>,
    all: Seq<FilelogView>,
    k: int,
) -> bool {
    &&& forall|j: int|
        0 <= j < k ==> cache.contains_key((#[trigger] all[j]).node) && cache[all[j].node] == Ok::<
            Seq<u8>,
            Error,
        >(all[j].blob)
    &&& forall|n: NodeHash|
        cache.contains_key(n) ==> exists|j: int| 0 <= j < k && (#[trigger] all[j]).node == n
}

/// The stream that brings `f` whole and then each of `fs` as a delta
/// against `f`.
pub open spec fn against_first(f: FilelogView, fs: Seq<FilelogView>) -> Seq<DeltaedView> {
    seq![fulltext_record(f)] + Seq::new(fs.len(), |i: int| delta_record(f, fs[i]))
}

/// The stream that brings the first of `fs` whole and each other one as a
/// delta against the one before it.
pub open spec fn chained(fs: Seq<FilelogView>) -> Seq<DeltaedView> {
    Seq::new(
        fs.len(),
        |i: int|
            if i == 0 {
                fulltext_record(fs[0])
            } else {
                delta_record(fs[i - 1], fs[i])
            },
    )
}

/// A parent that is not the null node comes back from its slot.
pub proof fn lemma_parent_slot(parent: Option<NodeHash>)
    requires
        parent != Some(null_hash()),
    ensures
        slot_parent(parent_slot(parent)) == parent,
{
    match parent {
        Some(p) => {
            lemma_null_hash(p);
        },
        None => {
            lemma_null_hash(null_hash());
        },
    }
}

/// Applying the delta of one fragment `{0, 0, text}` to the empty buffer
/// gives `text`.
pub proof fn lemma_fulltext(text: Seq<u8>)
    ensures
        fits(seq![FragmentView { start: 0, end: 0, content: text }], 0),
        apply_spec(Seq::empty(), seq![FragmentView { start: 0, end: 0, content: text }]) == text,
{
    let empty = Seq::<u8>::empty();
    let delta = seq![FragmentView { start: 0, end: 0, content: text }];
    assert(patched_prefix(empty, delta, 0) == empty);
    assert(patched_prefix(empty, delta, 1) == patched_prefix(empty, delta, 0) + empty.subrange(
        0,
        0,
    ) + text);
    assert(apply_spec(empty, delta) =~= text);
}

/// A self-contained stream of file revisions with unique nodes resolves,
/// against any repository, to those file revisions in order, without a
/// fetch; after `k` records the first `k` have been emitted.
pub proof fn lemma_self_contained_upto(
    files: Map<NodeHash, Seq<u8>>,
    recs: Seq<DeltaedView>,
    all: Seq<FilelogView>,
    k: int,
)
    requires
        self_contained(recs, all),
        all_encodable(all),
        unique_nodes(all),
        0 <= k <= all.len(),
    ensures
        stream_upto(files, recs, k).error is None,
        stream_upto(files, recs, k).emitted == all.take(k),
        stream_upto(files, recs, k).fetched == Seq::<NodeHash>::empty(),
        holds_contents(stream_upto(files, recs, k).cache, all, k),
    decreases k,
{
    if k <= 0 {
        assert(stream_upto(files, recs, k).emitted =~= all.take(k));
    } else {
        let i = k - 1;
        lemma_self_contained_upto(files, recs, all, i);
        let before = stream_upto(files, recs, i);
        let after = stream_upto(files, recs, k);
        let f = all[i];
        let rec = recs[i];
        assert(f.encodable());
        assert(brings(recs, all, i));
        assert(!before.cache.contains_key(f.node)) by {
            if before.cache.contains_key(f.node) {
                let j = choose|j: int| 0 <= j < i && (#[trigger] all[j]).node == f.node;
                assert(all[j].node != all[i].node);
            }
        }
        lemma_parent_slot(f.p1);
        lemma_parent_slot(f.p2);
        lemma_null_hash(null_hash());
        if rec == fulltext_record(f) {
            lemma_fulltext(f.blob);
        } else {
            let j = choose|j: int|
                0 <= j < i && !(#[trigger] all[j]).node.is_null() && recs[i] == delta_record(
                    all[j],
                    all[i],
                );
            lemma_null_hash(all[j].node);
            lemma_diff_roundtrip(all[j].blob, f.blob);
            assert(before.cache.contains_key(all[j].node));
        }
        assert(after.error is None);
        assert(after.emitted == before.emitted.push(f));
        assert(after.emitted =~= all.take(k));
        assert(after.cache == before.cache.insert(f.node, Ok::<Seq<u8>, Error>(f.blob)));
        assert forall|n: NodeHash| after.cache.contains_key(n) implies exists|j: int|
            0 <= j < k && (#[trigger] all[j]).node == n by {
            if n == f.node {
                assert(all[i].node == n);
            } else {
                let j = choose|j: int| 0 <= j < i && (#[trigger] all[j]).node == n;
                assert(all[j].node == n);
            }
        }
        assert forall|j: int| 0 <= j < k implies after.cache.contains_key(
            (#[trigger] all[j]).node,
        ) && after.cache[all[j].node] == Ok::<Seq<u8>, Error>(all[j].blob) by {
            if j < i {
                assert(all[j].node != all[i].node);
            }
        }
    }
}

/// A self-contained stream of file revisions with unique nodes resolves to
/// exactly those file revisions, in order, and asks the repository for
/// nothing.
pub proof fn lemma_self_contained(
    files: Map<NodeHash, Seq<u8>>,
    recs: Seq<DeltaedView>,
    all: Seq<FilelogView>,
)
    requires
        self_contained(recs, all),
        all_encodable(all),
        unique_nodes(all),
    ensures
        stream_result(files, recs).error is None,
        stream_result(files, recs).emitted == all,
        stream_result(files, recs).fetched == Seq::<NodeHash>::empty(),
{
    lemma_self_contained_upto(files, recs, all, all.len() as int);
    assert(all.take(all.len() as int) =~= all);
}

/// The stream of the one record that brings a file revision whole resolves
/// to exactly that file revision.
pub proof fn lemma_single_record(files: Map<NodeHash, Seq<u8>>, f: FilelogView)
    requires
        f.encodable(),
    ensures
        stream_result(files, seq![fulltext_record(f)]).error is None,
        stream_result(files, seq![fulltext_record(f)]).emitted == seq![f],
{
    lemma_self_contained(files, seq![fulltext_record(f)], seq![f]);
}

/// The stream that brings `f` whole and then each of `fs` as a delta
/// against `f` resolves to `f` followed by `fs`, where all of them are
/// valid and their nodes are unique.
pub proof fn lemma_delta_against_first(
    files: Map<NodeHash, Seq<u8>>,
    f: FilelogView,
    fs: Seq<FilelogView>,
)
    requires
        all_wf(seq![f] + fs),
        unique_nodes(seq![f] + fs),
    ensures
        stream_result(files, against_first(f, fs)).error is None,
        stream_result(files, against_first(f, fs)).emitted == seq![f] + fs,
        stream_result(files, against_first(f, fs)).fetched == Seq::<NodeHash>::empty(),
{
    let all = seq![f] + fs;
    let recs = against_first(f, fs);
    assert(all[0].wf());
    assert forall|i: int| 0 <= i < all.len() implies brings(recs, all, i) by {
        if i > 0 {
            assert(recs[i] == delta_record(all[0], all[i]));
        }
    }
    assert forall|i: int| 0 <= i < all.len() implies (#[trigger] all[i]).encodable() by {
        assert(all[i].wf());
    }
    lemma_self_contained(files, recs, all);
}

/// The stream that brings the first of `fs` whole and each other one as a
/// delta against the one before it resolves to `fs`, where all of them are
/// valid and their nodes are unique.
pub proof fn lemma_delta_against_previous(files: Map<NodeHash, Seq<u8>>, fs: Seq<FilelogView>)
    requires
        all_wf(fs),
        unique_nodes(fs),
    ensures
        stream_result(files, chained(fs)).error is None,
        stream_result(files, chained(fs)).emitted == fs,
        stream_result(files, chained(fs)).fetched == Seq::<NodeHash>::empty(),
{
    let recs = chained(fs);
    assert forall|i: int| 0 <= i < fs.len() implies brings(recs, fs, i) by {
        if i > 0 {
            assert(fs[i - 1].wf());
            assert(recs[i] == delta_record(fs[i - 1], fs[i]));
        }
    }
    assert forall|i: int| 0 <= i < fs.len() implies (#[trigger] fs[i]).encodable() by {
        assert(fs[i].wf());
    }
    lemma_self_contained(files, recs, fs);
}

} // verus!
