//! The delta cache of one changegroup stream: the full content of every
//! node that the stream has brought so far.

use vstd::prelude::*;
use bytes::Bytes;
use crate::blob::bytes_content;
use crate::delta::{apply, apply_spec, fits, Delta, FragmentView};
use crate::errors::{DeltaContext, Error, ErrorKind};
use crate::nodehash::NodeHash;
use crate::nodemap::NodeMap;

verus! {

/// What the repository answered when it was asked for the content of a
/// base.
#[derive(Debug, PartialEq, Eq)]
pub enum BaseLookup {
    /// The content of the base.
    Found(Bytes),
    /// The repository holds no such node.
    Missing,
    /// The backing store failed.
    Failed,
}

/// A `BaseLookup` as a mathematical value.
pub enum BaseLookupView {
    Found(Seq<u8>),
    Missing,
    Failed,
}

impl View for BaseLookup {
    type V = BaseLookupView;

    open spec fn view(&self) -> BaseLookupView {
        match self {
            BaseLookup::Found(b) => BaseLookupView::Found(bytes_content(*b)),
            BaseLookup::Missing => BaseLookupView::Missing,
            BaseLookup::Failed => BaseLookupView::Failed,
        }
    }
}

/// What a cache entry holds: the content of a node, or why there is none.
pub open spec fn outcome_view(value: Result<Bytes, Error>) -> Result<Seq<u8>, Error> {
    match value {
        Ok(b) => Ok(bytes_content(b)),
        Err(e) => Err(e),
    }
}

/// The node that has to be asked from the repository before `node` can be
/// decoded: its base, where the node itself is new, the base is not null
/// and the stream has not brought the base.
pub open spec fn fetch_needed(
    cache: Map<NodeHash, Result<Seq<u8>, Error>>,
    node: NodeHash,
    base: Option<NodeHash>,
) -> Option<NodeHash> {
    match base {
        Some(b) if !cache.contains_key(node) && !cache.contains_key(b) => Some(b),
        _ => None,
    }
}

/// The text that a delta against `base` is applied to: the empty buffer
/// where there is no base, else what the cache holds for the base, else
/// what the repository answered.
pub open spec fn base_text(
    cache: Map<NodeHash, Result<Seq<u8>, Error>>,
    base: Option<NodeHash>,
    repo: BaseLookupView,
) -> Result<Seq<u8>, ErrorKind> {
    match base {
        None => Ok(Seq::empty()),
        Some(b) => if cache.contains_key(b) {
            match cache[b] {
                Ok(text) => Ok(text),
                Err(e) => Err(e.kind),
            }
        } else {
            match repo {
                BaseLookupView::Found(text) => Ok(text),
                BaseLookupView::Missing => Err(ErrorKind::MissingBase),
                BaseLookupView::Failed => Err(ErrorKind::StorageIO),
            }
        },
    }
}

/// An error of kind `kind` for the delta of `node`: with a base it carries
/// the pair it was raised for.
pub open spec fn decode_error(kind: ErrorKind, base: Option<NodeHash>, node: NodeHash) -> Error {
    match base {
        None => Error { kind, context: None },
        Some(b) => Error { kind, context: Some(DeltaContext { base: b, node }) },
    }
}

/// What decoding a node that the cache does not hold computes.
pub open spec fn fresh_outcome(
    cache: Map<NodeHash, Result<Seq<u8>, Error>>,
    node: NodeHash,
    base: Option<NodeHash>,
    delta: Seq<FragmentView>,
    repo: BaseLookupView,
) -> Result<Seq<u8>, Error> {
    match base_text(cache, base, repo) {
        Ok(text) => if fits(delta, text.len() as int) {
            Ok(apply_spec(text, delta))
        } else {
            Err(decode_error(ErrorKind::InvalidDelta, base, node))
        },
        Err(kind) => Err(decode_error(kind, base, node)),
    }
}

/// What decoding `node` gives: what the cache holds for it, or else what
/// is computed now.
pub open spec fn decode_outcome(
    cache: Map<NodeHash, Result<Seq<u8>, Error>>,
    node: NodeHash,
    base: Option<NodeHash>,
    delta: Seq<FragmentView>,
    repo: BaseLookupView,
) -> Result<Seq<u8>, Error> {
    if cache.contains_key(node) {
        cache[node]
    } else {
        fresh_outcome(cache, node, base, delta, repo)
    }
}

/// The cache after decoding `node`: unchanged where it held the node, else
/// with the new outcome under it.
pub open spec fn cache_after(
    cache: Map<NodeHash, Result<Seq<u8>, Error>>,
    node: NodeHash,
    base: Option<NodeHash>,
    delta: Seq<FragmentView>,
    repo: BaseLookupView,
) -> Map<NodeHash, Result<Seq<u8>, Error>> {
    if cache.contains_key(node) {
        cache
    } else {
        cache.insert(node, fresh_outcome(cache, node, base, delta, repo))
    }
}

/// Where no node has to be asked from the repository, what the repository
/// would answer makes no difference.
pub proof fn lemma_answer_unread(
    cache: Map<NodeHash, Result<Seq<u8>, Error>>,
    node: NodeHash,
    base: Option<NodeHash>,
    delta: Seq<FragmentView>,
    one: BaseLookupView,
    other: BaseLookupView,
)
    requires
        fetch_needed(cache, node, base) is None,
    ensures
        decode_outcome(cache, node, base, delta, one) == decode_outcome(
            cache,
            node,
            base,
            delta,
            other,
        ),
        cache_after(cache, node, base, delta, one) == cache_after(cache, node, base, delta, other),
{
}

/// What a call of `decode` hands back.
#[derive(Debug, PartialEq, Eq)]
pub struct Decoded {
    /// The content of the node, or why there is none.
    pub value: Result<Bytes, Error>,
    /// Whether this call put the node into the cache. Statistics are due
    /// for such a call only.
    pub inserted: bool,
}

/// The contents of the nodes that one stream has brought so far.
pub struct DeltaCache {
    entries: NodeMap<Result<Bytes, Error>>,
}

impl View for DeltaCache {
    type V = Map<NodeHash, Result<Seq<u8>, Error>>;

    closed spec fn view(&self) -> Map<NodeHash, Result<Seq<u8>, Error>> {
        self.entries@.map_values(|v: Result<Bytes, Error>| outcome_view(v))
    }
}

impl DeltaCache {
    /// The invariant of the cache: no node was put into it twice.
    pub closed spec fn wf(&self) -> bool {
        self.entries.wf()
    }

    /// How many times a node was put into the cache.
    pub closed spec fn insertions(&self) -> nat {
        self.entries.entries().len()
    }

    /// Every node is in the cache at most once: there are as many nodes as
    /// there were insertions.
    pub proof fn lemma_inserted_once(&self)
        requires
            self.wf(),
        ensures
            self@.dom().finite(),
            self@.dom().len() == self.insertions(),
    {
        self.entries.lemma_entries();
        assert(self@.dom() =~= self.entries@.dom());
    }

    /// An empty cache, for a new stream.
    pub fn new() -> (cache: DeltaCache)
        ensures
            cache.wf(),
            cache@ == Map::<NodeHash, Result<Seq<u8>, Error>>::empty(),
            cache.insertions() == 0,
    {
        let cache = DeltaCache { entries: NodeMap::new() };
        assert(cache@ =~= Map::<NodeHash, Result<Seq<u8>, Error>>::empty());
        cache
    }

    /// Tells whether the stream has brought `node`.
    pub fn contains(&self, node: &NodeHash) -> (r: bool)
        requires
            self.wf(),
        ensures
            r == self@.contains_key(*node),
    {
        self.entries.contains(node)
    }

    /// What the cache holds for `node`.
    pub fn get(&self, node: &NodeHash) -> (r: Option<Result<Bytes, Error>>)
        requires
            self.wf(),
        ensures
            r is Some <==> self@.contains_key(*node),
            r matches Some(v) ==> outcome_view(v) == self@[*node],
    {
        match self.entries.get(node) {
            Some(value) => Some(copy_outcome(value)),
            None => None,
        }
    }

    /// The node whose content has to be asked from the repository before
    /// `node` is decoded, if there is one.
    pub fn needs_fetch(&self, node: &NodeHash, base: Option<NodeHash>) -> (r: Option<NodeHash>)
        requires
            self.wf(),
        ensures
            r == fetch_needed(self@, *node, base),
    {
        match base {
            Some(b) => {
                if !self.contains(node) && !self.contains(&b) {
                    Some(b)
                } else {
                    None
                }
            },
            None => None,
        }
    }

    /// Gives the content of `node`. Where the cache holds the node, that is
    /// what it holds, and nothing changes. Else the delta is applied to the
    /// empty buffer, to the cached content of `base`, or to `repo`, which is
    /// what the repository answered for `base` (it is read in this last case
    /// only), and the outcome is put into the cache under `node`.
    pub fn decode(
        &mut self,
        node: NodeHash,
        base: Option<NodeHash>,
        delta: &Delta,
        repo: BaseLookup,
    ) -> (r: Decoded)
        requires
            old(self).wf(),
        ensures
            final(self).wf(),
            r.inserted == !old(self)@.contains_key(node),
            outcome_view(r.value) == decode_outcome(old(self)@, node, base, delta@, repo@),
            final(self)@ == cache_after(old(self)@, node, base, delta@, repo@),
            final(self).insertions() == old(self).insertions() + if r.inserted {
                1nat
            } else {
                0nat
            },
    {
        match self.entries.get(&node) {
            Some(value) => Decoded { value: copy_outcome(value), inserted: false },
            None => {
                let value = self.compute(node, base, delta, repo);
                let handed = copy_outcome(&value);
                self.entries.insert(node, value);
                assert(self@ =~= old(self)@.insert(node, outcome_view(value)));
                Decoded { value: handed, inserted: true }
            },
        }
    }

    fn compute(
        &self,
        node: NodeHash,
        base: Option<NodeHash>,
        delta: &Delta,
        repo: BaseLookup,
    ) -> (value: Result<Bytes, Error>)
        requires
            self.wf(),
        ensures
            outcome_view(value) == fresh_outcome(self@, node, base, delta@, repo@),
    {
        match base {
            None => {
                let empty: Vec<u8> = Vec::new();
                match apply(empty.as_slice(), delta) {
                    Ok(text) => Ok(Bytes::from(text)),
                    Err(e) => Err(e),
                }
            },
            Some(b) => {
                let found = match self.entries.get(&b) {
                    Some(cached) => match cached {
                        Ok(text) => Ok(text.clone()),
                        Err(e) => Err(e.kind),
                    },
                    None => match repo {
                        BaseLookup::Found(text) => Ok(text),
                        BaseLookup::Missing => Err(ErrorKind::MissingBase),
                        BaseLookup::Failed => Err(ErrorKind::StorageIO),
                    },
                };
                match found {
                    Ok(text) => match apply(text.as_ref(), delta) {
                        Ok(out) => Ok(Bytes::from(out)),
                        Err(e) => Err(Error::while_applying(e.kind, b, node)),
                    },
                    Err(kind) => Err(Error::while_applying(kind, b, node)),
                }
            },
        }
    }
}

/// A second handle on an outcome.
pub fn copy_outcome(value: &Result<Bytes, Error>) -> (r: Result<Bytes, Error>)
    ensures
        outcome_view(r) == outcome_view(*value),
{
    match value {
        Ok(b) => Ok(b.clone()),
        Err(e) => Err(*e),
    }
}

} // verus!
