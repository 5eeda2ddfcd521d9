//! Resolving a changegroup stream into file revisions with full content.

use vstd::prelude::*;
use crate::cache::{
    cache_after, decode_outcome, fetch_needed, BaseLookup, BaseLookupView, DeltaCache,
};
use crate::errors::{Error, ErrorKind};
use crate::filelog::{
    filelog_views, slot_parent, DeltaedView, Filelog, FilelogDeltaed, FilelogView,
};
use crate::nodehash::NodeHash;
use crate::path::{valid_path, RepoPath, RepoPathView};
use crate::repo::{repo_lookup, Repo};

verus! {

/// The views of a list of records, in order.
pub open spec fn deltaed_views(recs: Seq<FilelogDeltaed>) -> Seq<DeltaedView> {
    Seq::new(recs.len(), |i: int| recs[i]@)
}

/// A result of resolving one record, as a mathematical value.
pub open spec fn resolution_view(r: Result<Filelog, Error>) -> Result<FilelogView, Error> {
    match r {
        Ok(f) => Ok(f@),
        Err(e) => Err(e),
    }
}

/// The file revision that a record with the content `blob` stands for:
/// a file at the record's path, with null parent slots read as no parent.
pub open spec fn filelog_of(rec: DeltaedView, blob: Seq<u8>) -> Result<FilelogView, Error> {
    if valid_path(rec.path) {
        Ok(
            FilelogView {
                path: RepoPathView::File(rec.path),
                node: rec.node,
                p1: slot_parent(rec.p1),
                p2: slot_parent(rec.p2),
                linknode: rec.linknode,
                blob,
            },
        )
    } else {
        Err(Error { kind: ErrorKind::InvalidPath, context: None })
    }
}

/// What resolving `rec` gives: its content is decoded, a null base read as
/// no base, and the file revision is made of it.
pub open spec fn resolve_outcome(
    cache: Map<NodeHash, Result<Seq<u8>, Error>>,
    rec: DeltaedView,
    repo: BaseLookupView,
) -> Result<FilelogView, Error> {
    match decode_outcome(cache, rec.node, slot_parent(rec.base), rec.delta, repo) {
        Ok(blob) => filelog_of(rec, blob),
        Err(e) => Err(e),
    }
}

/// What a call of `resolve` hands back.
#[derive(Debug, PartialEq, Eq)]
pub struct Resolution {
    /// The file revision, or why there is none.
    pub filelog: Result<Filelog, Error>,
    /// Whether this call put the node into the delta cache.
    pub inserted: bool,
}

/// The state of resolving one stream.
pub struct FilelogResolver {
    cache: DeltaCache,
}

impl View for FilelogResolver {
    type V = Map<NodeHash, Result<Seq<u8>, Error>>;

    /// What the delta cache holds.
    closed spec fn view(&self) -> Map<NodeHash, Result<Seq<u8>, Error>> {
        self.cache@
    }
}

impl FilelogResolver {
    /// The invariant of the resolver: that of its cache.
    pub closed spec fn wf(&self) -> bool {
        self.cache.wf()
    }

    /// How many times a node was put into the delta cache.
    pub closed spec fn insertions(&self) -> nat {
        self.cache.insertions()
    }

    /// Every node is in the delta cache at most once.
    pub proof fn lemma_inserted_once(&self)
        requires
            self.wf(),
        ensures
            self@.dom().finite(),
            self@.dom().len() == self.insertions(),
    {
        self.cache.lemma_inserted_once();
    }

    /// A resolver for a new stream, with an empty cache.
    pub fn new() -> (resolver: FilelogResolver)
        ensures
            resolver.wf(),
            resolver@ == Map::<NodeHash, Result<Seq<u8>, Error>>::empty(),
            resolver.insertions() == 0,
    {
        FilelogResolver { cache: DeltaCache::new() }
    }

    /// The node whose content has to be asked from the repository before
    /// `rec` is resolved, if there is one.
    pub fn needs_fetch(&self, rec: &FilelogDeltaed) -> (r: Option<NodeHash>)
        requires
            self.wf(),
        ensures
            r == fetch_needed(self@, rec@.node, slot_parent(rec@.base)),
    {
        self.cache.needs_fetch(&rec.chunk.node, rec.chunk.base.into_option())
    }

    /// Resolves the next record of the stream. `repo` is what the
    /// repository answered for the node that `needs_fetch` named; where it
    /// named none, `repo` is not read.
    pub fn resolve(&mut self, rec: &FilelogDeltaed, repo: BaseLookup) -> (r: Resolution)
        requires
            old(self).wf(),
        ensures
            final(self).wf(),
            resolution_view(r.filelog) == resolve_outcome(old(self)@, rec@, repo@),
            r.inserted == !old(self)@.contains_key(rec@.node),
            final(self)@ == cache_after(
                old(self)@,
                rec@.node,
                slot_parent(rec@.base),
                rec@.delta,
                repo@,
            ),
            final(self).insertions() == old(self).insertions() + if r.inserted {
                1nat
            } else {
                0nat
            },
    {
        let chunk = &rec.chunk;
        let decoded = self.cache.decode(chunk.node, chunk.base.into_option(), &chunk.delta, repo);
        let filelog = match decoded.value {
            Ok(blob) => match RepoPath::file(rec.path.clone()) {
                Ok(path) => Ok(
                    Filelog {
                        path,
                        node: chunk.node,
                        p1: chunk.p1.into_option(),
                        p2: chunk.p2.into_option(),
                        linknode: chunk.linknode,
                        blob,
                    },
                ),
                Err(e) => Err(e),
            },
            Err(e) => Err(e),
        };
        Resolution { filelog, inserted: decoded.inserted }
    }
}

/// How far a stream has got: what the cache holds, the file revisions
/// emitted, the nodes asked from the repository, and the error that ended
/// the stream, if one did.
pub struct StreamState {
    pub cache: Map<NodeHash, Result<Seq<u8>, Error>>,
    pub emitted: Seq<FilelogView>,
    pub fetched: Seq<NodeHash>,
    pub error: Option<Error>,
}

/// What the repository with the file contents `files` is asked, and
/// answers, for a record that needs `need`.
pub open spec fn answer_for(files: Map<NodeHash, Seq<u8>>, need: Option<NodeHash>)
    -> BaseLookupView {
    match need {
        Some(b) => repo_lookup(files, b),
        None => BaseLookupView::Missing,
    }
}

/// The state after one more record. A stream that has failed stays as it is.
pub open spec fn stream_step(
    files: Map<NodeHash, Seq<u8>>,
    state: StreamState,
    rec: DeltaedView,
) -> StreamState {
    if state.error is Some {
        state
    } else {
        let base = slot_parent(rec.base);
        let need = fetch_needed(state.cache, rec.node, base);
        let repo = answer_for(files, need);
        let cache = cache_after(state.cache, rec.node, base, rec.delta, repo);
        let fetched = match need {
            Some(b) => state.fetched.push(b),
            None => state.fetched,
        };
        match resolve_outcome(state.cache, rec, repo) {
            Ok(f) => StreamState { cache, emitted: state.emitted.push(f), fetched, error: None },
            Err(e) => StreamState { cache, emitted: state.emitted, fetched, error: Some(e) },
        }
    }
}

/// The state after the first `k` records of a stream, resolved in order
/// from an empty cache.
pub open spec fn stream_upto(files: Map<NodeHash, Seq<u8>>, recs: Seq<DeltaedView>, k: int)
    -> StreamState
    decreases k,
{
    if k <= 0 {
        StreamState {
            cache: Map::empty(),
            emitted: Seq::empty(),
            fetched: Seq::empty(),
            error: None,
        }
    } else {
        stream_step(files, stream_upto(files, recs, k - 1), recs[k - 1])
    }
}

/// The state after the whole stream.
pub open spec fn stream_result(files: Map<NodeHash, Seq<u8>>, recs: Seq<DeltaedView>)
    -> StreamState {
    stream_upto(files, recs, recs.len() as int)
}

/// What became of a stream.
#[derive(Debug, PartialEq, Eq)]
pub struct Conversion {
    /// The file revisions emitted before the stream ended, in order.
    pub filelogs: Vec<Filelog>,
    /// The error that ended the stream, if one did.
    pub error: Option<Error>,
    /// The nodes whose content was asked from the repository, in order.
    pub fetched: Vec<NodeHash>,
}

impl Conversion {
    /// All file revisions of the stream, or the error that ended it.
    pub fn collect(self) -> (r: Result<Vec<Filelog>, Error>)
        ensures
            match self.error {
                Some(e) => r == Err::<Vec<Filelog>, Error>(e),
                None => r == Ok::<Vec<Filelog>, Error>(self.filelogs),
            },
    {
        match self.error {
            Some(e) => Err(e),
            None => Ok(self.filelogs),
        }
    }
}

/// Resolves a changegroup stream against `repo`: each record in order,
/// with one delta cache for the stream, until a record fails.
pub fn convert_to_revlog_filelog(repo: &Repo, deltaed: &Vec<FilelogDeltaed>) -> (r: Conversion)
    requires
        repo.wf(),
    ensures
        filelog_views(r.filelogs@) == stream_result(
            repo.file_contents(),
            deltaed_views(deltaed@),
        ).emitted,
        r.error == stream_result(repo.file_contents(), deltaed_views(deltaed@)).error,
        r.fetched@ == stream_result(repo.file_contents(), deltaed_views(deltaed@)).fetched,
{
    let ghost files = repo.file_contents();
    let ghost recs = deltaed_views(deltaed@);
    let mut resolver = FilelogResolver::new();
    let mut filelogs: Vec<Filelog> = Vec::new();
    let mut fetched: Vec<NodeHash> = Vec::new();
    let mut k: usize = 0;
    while k < deltaed.len()
        invariant
            k <= deltaed@.len(),
            repo.wf(),
            files == repo.file_contents(),
            recs == deltaed_views(deltaed@),
            resolver.wf(),
            stream_upto(files, recs, k as int).error is None,
            resolver@ == stream_upto(files, recs, k as int).cache,
            filelog_views(filelogs@) == stream_upto(files, recs, k as int).emitted,
            fetched@ == stream_upto(files, recs, k as int).fetched,
        decreases deltaed@.len() - k,
    {
        let rec = &deltaed[k];
        assert(recs[k as int] == rec@);
        let need = resolver.needs_fetch(rec);
        let answer = match need {
            Some(b) => {
                fetched.push(b);
                repo.get_file_content(&b)
            },
            None => BaseLookup::Missing,
        };
        let resolution = resolver.resolve(rec, answer);
        match resolution.filelog {
            Ok(f) => {
                proof {
                    assert(filelog_views(filelogs@.push(f)) =~= filelog_views(filelogs@).push(f@));
                }
                filelogs.push(f);
            },
            Err(e) => {
                proof {
                    lemma_stream_failed(files, recs, k + 1, recs.len() as int);
                }
                return Conversion { filelogs, error: Some(e), fetched };
            },
        }
        k = k + 1;
    }
    Conversion { filelogs, error: None, fetched }
}

/// A stream that has failed after `k` records is in the same state after
/// any more.
pub proof fn lemma_stream_failed(
    files: Map<NodeHash, Seq<u8>>,
    recs: Seq<DeltaedView>,
    k: int,
    n: int,
)
    requires
        0 <= k <= n,
        stream_upto(files, recs, k).error is Some,
    ensures
        stream_upto(files, recs, n) == stream_upto(files, recs, k),
    decreases n - k,
{
    if k < n {
        lemma_stream_failed(files, recs, k, n - 1);
    }
}

} // verus!
