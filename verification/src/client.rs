//! The read side of the wire protocol, answered from a repository.

use std::sync::Arc;
use vstd::prelude::*;
use crate::between::{sample_exponential, sampled, ParentStream};
use crate::blob::slices_equal;
use crate::bundle2::{
    bundle_bytes, encode_bundle, found_keys, listkey_part, listkeys_of, listkeys_part, part_views,
    KeyLookup, Part, PartView,
};
use crate::caps::bundle2caps_spec;
use crate::repo::Bookmark;
use crate::changeset::{first_parent_spec, Parents};
use crate::errors::{Error, ErrorKind};
use crate::nodehash::NodeHash;
use crate::nodemap::{distinct_nodes, lemma_entries_map, NodeEntry, NodeMap};
use crate::repo::{parent_known, topological, Repo};

verus! {

/// The walk stops at `n`: it is `bottom` or the null node.
pub open spec fn stops(n: NodeHash, bottom: NodeHash) -> bool {
    n == bottom || n.is_null()
}

/// The node that comes at place `i` of a walk from `top`, given the nodes
/// before it: `top` itself, or the first parent of the node before.
pub open spec fn link(cs: Map<NodeHash, Parents>, top: NodeHash, chain: Seq<NodeHash>, i: int)
    -> NodeHash {
    if i <= 0 {
        top
    } else {
        first_parent_spec(cs[chain[i - 1]])
    }
}

/// `chain` is the start of the walk from `top`: each node follows from the
/// one before, none is where the walk stops, and all are changesets of `cs`.
pub open spec fn is_walk(
    cs: Map<NodeHash, Parents>,
    top: NodeHash,
    bottom: NodeHash,
    chain: Seq<NodeHash>,
) -> bool {
    forall|i: int|
        0 <= i < chain.len() ==> {
            &&& #[trigger] chain[i] == link(cs, top, chain, i)
            &&& !stops(chain[i], bottom)
            &&& cs.contains_key(chain[i])
        }
}

/// `chain` is the whole walk from `top`: `top`, its first parent, that
/// one's first parent and so on, up to but without the node at which the
/// walk stops.
pub open spec fn ancestor_chain(
    cs: Map<NodeHash, Parents>,
    top: NodeHash,
    bottom: NodeHash,
    chain: Seq<NodeHash>,
) -> bool {
    is_walk(cs, top, bottom, chain) && stops(link(cs, top, chain, chain.len() as int), bottom)
}

/// `chain` is a walk from `top` that cannot go on: the node that comes
/// next is no changeset of `cs`.
pub open spec fn broken_walk(
    cs: Map<NodeHash, Parents>,
    top: NodeHash,
    bottom: NodeHash,
    chain: Seq<NodeHash>,
) -> bool {
    &&& is_walk(cs, top, bottom, chain)
    &&& !stops(link(cs, top, chain, chain.len() as int), bottom)
    &&& !cs.contains_key(link(cs, top, chain, chain.len() as int))
}

/// The walk from `top` can be made to its end.
pub open spec fn has_chain(cs: Map<NodeHash, Parents>, top: NodeHash, bottom: NodeHash) -> bool {
    exists|chain: Seq<NodeHash>| ancestor_chain(cs, top, bottom, chain)
}

/// The whole walk from `top`, where it can be made.
pub open spec fn chain_of(cs: Map<NodeHash, Parents>, top: NodeHash, bottom: NodeHash) -> Seq<
    NodeHash,
> {
    choose|chain: Seq<NodeHash>| ancestor_chain(cs, top, bottom, chain)
}

/// Two walks from the same node agree as far as both go.
pub proof fn lemma_walks_agree(
    cs: Map<NodeHash, Parents>,
    top: NodeHash,
    bottom: NodeHash,
    a: Seq<NodeHash>,
    b: Seq<NodeHash>,
    i: int,
)
    requires
        is_walk(cs, top, bottom, a),
        is_walk(cs, top, bottom, b),
        0 <= i < a.len(),
        i < b.len(),
    ensures
        a[i] == b[i],
    decreases i,
{
    if i > 0 {
        lemma_walks_agree(cs, top, bottom, a, b, i - 1);
    }
    assert(a[i] == link(cs, top, a, i));
    assert(b[i] == link(cs, top, b, i));
}

/// There is only one whole walk from a node, and where there is one, no
/// walk from that node is broken.
pub proof fn lemma_chain_unique(
    cs: Map<NodeHash, Parents>,
    top: NodeHash,
    bottom: NodeHash,
    chain: Seq<NodeHash>,
    other: Seq<NodeHash>,
)
    requires
        ancestor_chain(cs, top, bottom, chain),
        is_walk(cs, top, bottom, other),
    ensures
        other.len() <= chain.len(),
        ancestor_chain(cs, top, bottom, other) ==> other == chain,
        !broken_walk(cs, top, bottom, other),
{
    let n = chain.len() as int;
    let m = other.len() as int;
    if m > 0 && n > 0 {
        lemma_walks_agree(cs, top, bottom, chain, other, if m <= n { m - 1 } else { n - 1 });
    }
    if m > n {
        assert(other[n] == link(cs, top, other, n));
        assert(!stops(other[n], bottom));
    } else if m < n {
        assert(chain[m] == link(cs, top, chain, m));
        assert(!stops(chain[m], bottom));
        assert(cs.contains_key(chain[m]));
    } else {
        assert forall|i: int| 0 <= i < n implies chain[i] == other[i] by {
            lemma_walks_agree(cs, top, bottom, chain, other, i);
        }
        assert(chain =~= other);
    }
}

/// The changeset `n`, if there is one, stands before place `bound` of the
/// changelog.
pub open spec fn below(log: Seq<NodeEntry<Parents>>, n: NodeHash, bound: int) -> bool {
    forall|j: int| 0 <= j < log.len() && (#[trigger] log[j]).node == n ==> j < bound
}

/// One step of a walk through a topological changelog: the walk gets
/// longer by the changeset at place `i`, and what comes next stands before
/// that place.
pub proof fn lemma_walk_step(
    log: Seq<NodeEntry<Parents>>,
    top: NodeHash,
    bottom: NodeHash,
    chain: Seq<NodeHash>,
    i: int,
    bound: int,
)
    requires
        distinct_nodes(log),
        topological(log),
        0 <= i < log.len(),
        is_walk(crate::nodemap::entries_map(log), top, bottom, chain),
        log[i].node == link(crate::nodemap::entries_map(log), top, chain, chain.len() as int),
        !stops(log[i].node, bottom),
        below(log, log[i].node, bound),
    ensures
        i < bound,
        is_walk(crate::nodemap::entries_map(log), top, bottom, chain.push(log[i].node)),
        link(
            crate::nodemap::entries_map(log),
            top,
            chain.push(log[i].node),
            chain.len() as int + 1,
        ) == first_parent_spec(log[i].value),
        below(log, first_parent_spec(log[i].value), i),
{
    let cs = crate::nodemap::entries_map(log);
    let n = log[i].node;
    let next = first_parent_spec(log[i].value);
    lemma_entries_map(log);
    let longer = chain.push(n);
    assert forall|k: int| 0 <= k < longer.len() implies {
        &&& #[trigger] longer[k] == link(cs, top, longer, k)
        &&& !stops(longer[k], bottom)
        &&& cs.contains_key(longer[k])
    } by {
        if k < chain.len() {
            assert(longer[k] == chain[k]);
            assert(chain[k] == link(cs, top, chain, k));
            if k > 0 {
                assert(longer[k - 1] == chain[k - 1]);
            }
        } else if k > 0 {
            assert(longer[k - 1] == chain[k - 1]);
        }
    }
    assert(longer[chain.len() as int] == n);
    assert(parent_known(log, i, next));
    assert forall|j: int| 0 <= j < log.len() && (#[trigger] log[j]).node == next implies j
        < i by {
        assert(!log[j].node.is_null());
        let k = choose|k: int| 0 <= k < i && (#[trigger] log[k]).node == next;
        if k < j {
            assert(log[k].node != log[j].node);
        } else if j < k {
            assert(log[j].node != log[k].node);
        }
    }
}

/// What a client asks for with `getbundle`.
#[derive(Debug, PartialEq, Eq)]
pub struct GetbundleArgs {
    pub heads: Vec<NodeHash>,
    pub common: Vec<NodeHash>,
    pub bundlecaps: Vec<Vec<u8>>,
    pub listkeys: Vec<Vec<u8>>,
}

/// The namespace `bookmarks`.
pub open spec fn bookmarks_namespace() -> Seq<u8> {
    seq![0x62u8, 0x6fu8, 0x6fu8, 0x6bu8, 0x6du8, 0x61u8, 0x72u8, 0x6bu8, 0x73u8]
}

/// The client asks for the bookmarks: `bookmarks` is among the namespaces
/// whose keys it wants listed.
pub open spec fn wants_bookmarks(listkeys: Seq<Vec<u8>>) -> bool {
    exists|i: int| 0 <= i < listkeys.len() && (#[trigger] listkeys[i])@ == bookmarks_namespace()
}

/// What looking up each bookmark gives where none goes missing: its name
/// with its node.
pub open spec fn bookmark_lookups(bookmarks: Seq<Bookmark>) -> Seq<KeyLookup> {
    Seq::new(
        bookmarks.len(),
        |i: int| KeyLookup { name: bookmarks[i].name, node: Some(bookmarks[i].node) },
    )
}

/// The parts of the bundle that answers `getbundle`: a `listkeys` part
/// with the bookmarks where the client asks for them, else none.
pub open spec fn getbundle_parts(listkeys: Seq<Vec<u8>>, bookmarks: Seq<Bookmark>) -> Seq<
    PartView,
> {
    if wants_bookmarks(listkeys) {
        seq![listkeys_part(bookmarks_namespace(), found_keys(bookmark_lookups(bookmarks)))]
    } else {
        Seq::empty()
    }
}

/// Tells whether the client asks for the bookmarks.
pub fn asks_for_bookmarks(listkeys: &Vec<Vec<u8>>) -> (r: bool)
    ensures
        r == wants_bookmarks(listkeys@),
{
    let name: Vec<u8> = vec![
        0x62u8,
        0x6fu8,
        0x6fu8,
        0x6bu8,
        0x6du8,
        0x61u8,
        0x72u8,
        0x6bu8,
        0x73u8,
    ];
    assert(name@ =~= bookmarks_namespace());
    let mut k: usize = 0;
    while k < listkeys.len()
        invariant
            k <= listkeys@.len(),
            name@ == bookmarks_namespace(),
            forall|i: int| 0 <= i < k ==> (#[trigger] listkeys@[i])@ != bookmarks_namespace(),
        decreases listkeys@.len() - k,
    {
        if slices_equal(listkeys[k].as_slice(), name.as_slice()) {
            return true;
        }
        k = k + 1;
    }
    false
}

/// The nodes of `items`, each once.
pub fn unique_nodes(items: &Vec<NodeHash>) -> (set: Vec<NodeHash>)
    ensures
        set@.no_duplicates(),
        forall|n: NodeHash| set@.contains(n) <==> items@.contains(n),
{
    let mut seen: NodeMap<()> = NodeMap::new();
    let mut set: Vec<NodeHash> = Vec::new();
    let mut k: usize = 0;
    while k < items.len()
        invariant
            k <= items@.len(),
            seen.wf(),
            set@.no_duplicates(),
            forall|n: NodeHash| set@.contains(n) <==> seen@.contains_key(n),
            forall|n: NodeHash| set@.contains(n) <==> items@.take(k as int).contains(n),
        decreases items@.len() - k,
    {
        let node = items[k];
        let ghost before = set@;
        let ghost seen_before = seen@;
        let fresh = seen.insert(node, ());
        if fresh {
            set.push(node);
        }
        proof {
            assert(fresh == !before.contains(node));
            if fresh {
                assert forall|i: int, j: int| 0 <= i < set@.len() && 0 <= j < set@.len() && i
                    != j implies set@[i] != set@[j] by {
                    if i < before.len() && j < before.len() {
                        assert(before[i] != before[j]);
                    } else if i < before.len() {
                        assert(before.contains(before[i]));
                    } else if j < before.len() {
                        assert(before.contains(before[j]));
                    }
                }
            }
            let prefix = items@.take(k as int);
            let longer = items@.take(k + 1);
            assert(longer =~= prefix.push(node));
            assert forall|n: NodeHash| set@.contains(n) <==> before.contains(n) || n == node by {
                if before.contains(n) {
                    let m = choose|m: int| 0 <= m < before.len() && before[m] == n;
                    assert(set@[m] == n);
                }
                if n == node {
                    if fresh {
                        assert(set@[before.len() as int] == n);
                    } else {
                        let m = choose|m: int| 0 <= m < before.len() && before[m] == n;
                        assert(set@[m] == n);
                    }
                }
                if set@.contains(n) {
                    let m = choose|m: int| 0 <= m < set@.len() && set@[m] == n;
                    if m < before.len() {
                        assert(before[m] == n);
                    }
                }
            }
            assert forall|n: NodeHash| set@.contains(n) <==> seen@.contains_key(n) by {
                assert(before.contains(n) <==> seen_before.contains_key(n));
            }
            assert forall|n: NodeHash| longer.contains(n) <==> prefix.contains(n) || n
                == node by {
                if prefix.contains(n) {
                    let i = choose|i: int| 0 <= i < prefix.len() && prefix[i] == n;
                    assert(longer[i] == n);
                }
                if n == node {
                    assert(longer[k as int] == n);
                }
                if longer.contains(n) {
                    let i = choose|i: int| 0 <= i < longer.len() && longer[i] == n;
                    if i < k {
                        assert(prefix[i] == n);
                    }
                }
            }
            assert forall|n: NodeHash| set@.contains(n) <==> longer.contains(n) by {
                assert(before.contains(n) <==> prefix.contains(n));
                assert(set@.contains(n) <==> before.contains(n) || n == node);
                assert(longer.contains(n) <==> prefix.contains(n) || n == node);
            }
        }
        k = k + 1;
    }
    assert(items@.take(k as int) =~= items@);
    set
}

/// A connection to a repository.
pub struct RepoClient {
    repo: Arc<Repo>,
}

impl RepoClient {
    /// The repository that the client is connected to.
    pub closed spec fn repo(&self) -> Repo {
        *self.repo
    }

    /// A client of `repo`.
    pub fn new(repo: Arc<Repo>) -> (client: RepoClient)
        ensures
            client.repo() == *repo,
    {
        RepoClient { repo }
    }

    /// The walk from `top` down its first parents, up to but without
    /// `bottom` or the null node. It fails where it comes to a node that is
    /// no changeset of the repository.
    pub fn ancestors(&self, top: NodeHash, bottom: NodeHash) -> (r: Result<Vec<NodeHash>, Error>)
        requires
            self.repo().wf(),
        ensures
            r is Ok <==> has_chain(self.repo().changesets(), top, bottom),
            r matches Ok(chain) ==> chain@ == chain_of(self.repo().changesets(), top, bottom)
                && ancestor_chain(self.repo().changesets(), top, bottom, chain@),
            r matches Err(e) ==> e == (Error { kind: ErrorKind::StorageIO, context: None }),
    {
        let repo: &Repo = &self.repo;
        let ghost cs = repo.changesets();
        let ghost log = repo.changelog();
        proof {
            repo.lemma_changelog();
            lemma_entries_map(log);
        }
        let mut chain: Vec<NodeHash> = Vec::new();
        let mut walk = ParentStream::new(top, bottom);
        let mut bound: usize = repo.changeset_count();
        loop
            invariant
                repo.wf(),
                *repo == self.repo(),
                cs == repo.changesets(),
                log == repo.changelog(),
                walk.bottom == bottom,
                walk.n == link(cs, top, chain@, chain@.len() as int),
                is_walk(cs, top, bottom, chain@),
                bound <= log.len(),
                below(log, walk.n, bound as int),
            decreases bound,
        {
            let n = match walk.pending() {
                Some(n) => n,
                None => {
                    proof {
                        lemma_ancestors_done(cs, top, bottom, chain@);
                    }
                    return Ok(chain);
                },
            };
            let i = match repo.changeset_position(&n) {
                Some(i) => i,
                None => {
                    proof {
                        lemma_ancestors_broken(cs, top, bottom, chain@);
                    }
                    return Err(Error::new(ErrorKind::StorageIO));
                },
            };
            let parents = repo.changelog_entry(i).value;
            proof {
                repo.lemma_changelog();
                lemma_walk_step(log, top, bottom, chain@, i as int, bound as int);
            }
            walk.advance(&parents);
            chain.push(n);
            bound = i;
        }
    }

    /// For each pair of a top and a bottom, the exponential sample of the
    /// walk from the top to the bottom: its nodes at the places 1, 2, 4, 8
    /// and so on. It fails where one of the walks does.
    pub fn between(&self, pairs: &Vec<(NodeHash, NodeHash)>) -> (r: Result<
        Vec<Vec<NodeHash>>,
        Error,
    >)
        requires
            self.repo().wf(),
        ensures
            r is Ok <==> forall|i: int|
                0 <= i < pairs@.len() ==> has_chain(
                    self.repo().changesets(),
                    (#[trigger] pairs@[i]).0,
                    pairs@[i].1,
                ),
            r matches Ok(lists) ==> lists@.len() == pairs@.len() && forall|i: int|
                0 <= i < pairs@.len() ==> (#[trigger] lists@[i])@ == sampled(
                    chain_of(self.repo().changesets(), pairs@[i].0, pairs@[i].1),
                ),
            r matches Err(e) ==> e == (Error { kind: ErrorKind::StorageIO, context: None }),
    {
        let mut lists: Vec<Vec<NodeHash>> = Vec::new();
        let mut k: usize = 0;
        while k < pairs.len()
            invariant
                k <= pairs@.len(),
                self.repo().wf(),
                lists@.len() == k,
                forall|i: int|
                    0 <= i < k ==> has_chain(
                        self.repo().changesets(),
                        (#[trigger] pairs@[i]).0,
                        pairs@[i].1,
                    ),
                forall|i: int|
                    0 <= i < k ==> (#[trigger] lists@[i])@ == sampled(
                        chain_of(self.repo().changesets(), pairs@[i].0, pairs@[i].1),
                    ),
            decreases pairs@.len() - k,
        {
            let (top, bottom) = pairs[k];
            match self.ancestors(top, bottom) {
                Ok(chain) => {
                    lists.push(sample_exponential(&chain));
                },
                Err(e) => {
                    assert(!has_chain(
                        self.repo().changesets(),
                        pairs@[k as int].0,
                        pairs@[k as int].1,
                    ));
                    return Err(e);
                },
            }
            k = k + 1;
        }
        Ok(lists)
    }

    /// The capabilities of the server.
    pub fn hello(&self) -> (answer: Vec<(String, Vec<String>)>)
        ensures
            answer@.len() == 1,
            answer@[0].0@ == "capabilities"@,
            answer@[0].1@.len() == 4,
            answer@[0].1@[0]@ == "lookup"@,
            answer@[0].1@[1]@ == "known"@,
            answer@[0].1@[2]@ == "getbundle"@,
            answer@[0].1@[3]@ == "bundle2="@ + bundle2caps_spec(),
            answer@[0].1@[3]@ == "bundle2="@ + "HG20%0Alistkeys%0Achangegroup%3D02"@,
    {
        crate::caps::hello()
    }

    /// The heads of the repository, each once.
    pub fn heads(&self) -> (set: Vec<NodeHash>)
        ensures
            set@.no_duplicates(),
            forall|n: NodeHash| set@.contains(n) <==> self.repo().heads().contains(n),
    {
        let repo: &Repo = &self.repo;
        unique_nodes(repo.get_heads())
    }

    /// The bundle that answers `getbundle`: not compressed, with the
    /// bookmarks as a `listkeys` part where the client asks for them.
    pub fn getbundle(&self, args: &GetbundleArgs) -> (r: Result<Vec<u8>, Error>)
        ensures
            r matches Ok(bytes) && bytes@ == bundle_bytes(
                getbundle_parts(args.listkeys@, self.repo().bookmarks()),
            ),
    {
        let repo: &Repo = &self.repo;
        let mut parts: Vec<Part> = Vec::new();
        if asks_for_bookmarks(&args.listkeys) {
            let bookmarks = repo.get_bookmarks();
            let mut lookups: Vec<KeyLookup> = Vec::new();
            let mut k: usize = 0;
            while k < bookmarks.len()
                invariant
                    k <= bookmarks@.len(),
                    lookups@.len() == k,
                    forall|i: int|
                        0 <= i < k ==> (#[trigger] lookups@[i]).name@ == bookmarks@[i].name@
                            && lookups@[i].node == Some(bookmarks@[i].node),
                decreases bookmarks@.len() - k,
            {
                lookups.push(
                    KeyLookup { name: bookmarks[k].name.clone(), node: Some(bookmarks[k].node) },
                );
                k = k + 1;
            }
            proof {
                lemma_found_keys_views(lookups@, bookmark_lookups(bookmarks@));
            }
            let items = listkeys_of(&lookups);
            let name: Vec<u8> = vec![
                0x62u8,
                0x6fu8,
                0x6fu8,
                0x6bu8,
                0x6du8,
                0x61u8,
                0x72u8,
                0x6bu8,
                0x73u8,
            ];
            assert(name@ =~= bookmarks_namespace());
            let part = listkey_part(name.as_slice(), &items).unwrap();
            parts.push(part);
            assert(part_views(parts@) =~= getbundle_parts(args.listkeys@, self.repo().bookmarks()));
        } else {
            assert(part_views(parts@) =~= getbundle_parts(args.listkeys@, self.repo().bookmarks()));
        }
        encode_bundle(&parts)
    }

    /// Answers `changegroup`: nothing is streamed yet.
    pub fn changegroup(&self, _roots: &Vec<NodeHash>) {
    }

    /// Answers `unbundle`: nothing is taken in yet.
    pub fn unbundle(&self, _heads: &Vec<NodeHash>) {
    }

    /// For each node, whether the repository holds it as a changeset.
    pub fn known(&self, nodes: &Vec<NodeHash>) -> (r: Vec<bool>)
        requires
            self.repo().wf(),
        ensures
            r@.len() == nodes@.len(),
            forall|i: int|
                0 <= i < nodes@.len() ==> r@[i] == self.repo().changesets().contains_key(
                    #[trigger] nodes@[i],
                ),
    {
        let mut r: Vec<bool> = Vec::new();
        let mut k: usize = 0;
        while k < nodes.len()
            invariant
                k <= nodes@.len(),
                self.repo().wf(),
                r@.len() == k,
                forall|i: int|
                    0 <= i < k ==> r@[i] == self.repo().changesets().contains_key(
                        #[trigger] nodes@[i],
                    ),
            decreases nodes@.len() - k,
        {
            let repo: &Repo = &self.repo;
            r.push(repo.changeset_exists(&nodes[k]));
            k = k + 1;
        }
        r
    }
}

/// A walk whose next node is where it stops is the whole walk, and the only
/// one.
pub proof fn lemma_ancestors_done(
    cs: Map<NodeHash, Parents>,
    top: NodeHash,
    bottom: NodeHash,
    chain: Seq<NodeHash>,
)
    requires
        ancestor_chain(cs, top, bottom, chain),
    ensures
        has_chain(cs, top, bottom),
        chain_of(cs, top, bottom) == chain,
{
    let chosen = chain_of(cs, top, bottom);
    lemma_chain_unique(cs, top, bottom, chain, chosen);
}

/// Where a walk is broken, there is no whole walk from its top.
pub proof fn lemma_ancestors_broken(
    cs: Map<NodeHash, Parents>,
    top: NodeHash,
    bottom: NodeHash,
    chain: Seq<NodeHash>,
)
    requires
        broken_walk(cs, top, bottom, chain),
    ensures
        !has_chain(cs, top, bottom),
{
    if has_chain(cs, top, bottom) {
        let whole = chain_of(cs, top, bottom);
        lemma_chain_unique(cs, top, bottom, whole, chain);
    }
}

/// Lookups with the same names and nodes give the same keys.
pub proof fn lemma_found_keys_views(a: Seq<KeyLookup>, b: Seq<KeyLookup>)
    requires
        a.len() == b.len(),
        forall|i: int|
            0 <= i < a.len() ==> (#[trigger] a[i]).name@ == b[i].name@ && a[i].node == b[i].node,
    ensures
        found_keys(a) == found_keys(b),
    decreases a.len(),
{
    if a.len() > 0 {
        let fa = a.drop_last();
        let fb = b.drop_last();
        assert forall|i: int| 0 <= i < fa.len() implies (#[trigger] fa[i]).name@ == fb[i].name@
            && fa[i].node == fb[i].node by {
            assert(fa[i] == a[i]);
            assert(fb[i] == b[i]);
        }
        lemma_found_keys_views(fa, fb);
        assert(a[a.len() - 1].name@ == b[a.len() - 1].name@);
    }
}

} // verus!
