//! A repository held in memory: file contents, changesets, heads and
//! bookmarks.

use vstd::prelude::*;
use vstd::string::StringExecFns;
use bytes::Bytes;
use crate::blob::bytes_content;
use crate::cache::{BaseLookup, BaseLookupView};
use crate::changeset::{first_parent_spec, second_parent_spec, Parents};
use crate::nodehash::NodeHash;
use crate::nodemap::{lemma_entries_map, NodeEntry, NodeMap};

verus! {

/// What a repository with the file contents `files` answers when it is
/// asked for `node`.
pub open spec fn repo_lookup(files: Map<NodeHash, Seq<u8>>, node: NodeHash) -> BaseLookupView {
    if files.contains_key(node) {
        BaseLookupView::Found(files[node])
    } else {
        BaseLookupView::Missing
    }
}

/// A bookmark: a name for a changeset.
#[derive(Debug, PartialEq, Eq)]
pub struct Bookmark {
    pub name: Vec<u8>,
    pub node: NodeHash,
}

/// The parent `p` of the changeset at place `i` is the null node or a
/// changeset at an earlier place.
pub open spec fn parent_known(entries: Seq<NodeEntry<Parents>>, i: int, p: NodeHash) -> bool {
    p.is_null() || exists|j: int| 0 <= j < i && (#[trigger] entries[j]).node == p
}

/// No changeset is the null node, and the parents of every changeset come
/// before it.
pub open spec fn topological(entries: Seq<NodeEntry<Parents>>) -> bool {
    forall|i: int|
        0 <= i < entries.len() ==> {
            &&& !(#[trigger] entries[i]).node.is_null()
            &&& parent_known(entries, i, first_parent_spec(entries[i].value))
            &&& parent_known(entries, i, second_parent_spec(entries[i].value))
        }
}

/// The state of one repository.
pub struct Repo {
    path: String,
    files: NodeMap<Bytes>,
    changesets: NodeMap<Parents>,
    heads: Vec<NodeHash>,
    bookmarks: Vec<Bookmark>,
}

impl Repo {
    /// The invariant of the repository: nodes are unique, and the parents
    /// of a changeset were there before it.
    pub closed spec fn wf(&self) -> bool {
        &&& self.files.wf()
        &&& self.changesets.wf()
        &&& topological(self.changesets.entries())
    }

    /// Where the repository lives.
    pub closed spec fn path(&self) -> Seq<char> {
        self.path@
    }

    /// The file contents that the repository holds, by node.
    pub closed spec fn file_contents(&self) -> Map<NodeHash, Seq<u8>> {
        self.files@.map_values(|b: Bytes| bytes_content(b))
    }

    /// The changesets that the repository holds, each with its parents.
    pub closed spec fn changesets(&self) -> Map<NodeHash, Parents> {
        self.changesets@
    }

    /// The changesets in the order in which they were added.
    pub closed spec fn changelog(&self) -> Seq<NodeEntry<Parents>> {
        self.changesets.entries()
    }

    /// The heads as the repository lists them.
    pub closed spec fn heads(&self) -> Seq<NodeHash> {
        self.heads@
    }

    /// The bookmarks as the repository lists them.
    pub closed spec fn bookmarks(&self) -> Seq<Bookmark> {
        self.bookmarks@
    }

    /// The changesets by node and in order say the same, and the order is
    /// topological.
    pub proof fn lemma_changelog(&self)
        requires
            self.wf(),
        ensures
            self.changesets() == crate::nodemap::entries_map(self.changelog()),
            crate::nodemap::distinct_nodes(self.changelog()),
            topological(self.changelog()),
    {
        self.changesets.lemma_entries();
    }

    /// A repository at `path` that holds nothing.
    pub fn new(path: &str) -> (repo: Repo)
        ensures
            repo.wf(),
            repo.path() == path@,
            repo.file_contents() == Map::<NodeHash, Seq<u8>>::empty(),
            repo.changesets() == Map::<NodeHash, Parents>::empty(),
            repo.heads() == Seq::<NodeHash>::empty(),
            repo.bookmarks() == Seq::<Bookmark>::empty(),
    {
        let repo = Repo {
            path: String::from_str(path),
            files: NodeMap::new(),
            changesets: NodeMap::new(),
            heads: Vec::new(),
            bookmarks: Vec::new(),
        };
        assert(repo.file_contents() =~= Map::<NodeHash, Seq<u8>>::empty());
        repo
    }

    /// The repository by name: `Repo(` and `)` around its path.
    pub fn describe(&self) -> (text: String)
        ensures
            text@ == "Repo("@ + self.path() + ")"@,
    {
        let mut text = String::from_str("Repo(");
        text.append(self.path.as_str());
        text.append(")");
        text
    }

    /// Stores `content` as the file revision `node`, unless the repository
    /// holds that node already; tells whether it did.
    pub fn add_file(&mut self, node: NodeHash, content: Bytes) -> (added: bool)
        requires
            old(self).wf(),
        ensures
            final(self).wf(),
            added == !old(self).file_contents().contains_key(node),
            final(self).file_contents() == if added {
                old(self).file_contents().insert(node, bytes_content(content))
            } else {
                old(self).file_contents()
            },
            final(self).path() == old(self).path(),
            final(self).changesets() == old(self).changesets(),
            final(self).changelog() == old(self).changelog(),
            final(self).heads() == old(self).heads(),
            final(self).bookmarks() == old(self).bookmarks(),
    {
        let added = self.files.insert(node, content);
        assert(added ==> self.file_contents() =~= old(self).file_contents().insert(
            node,
            bytes_content(content),
        ));
        added
    }

    /// The content of the file revision `node`.
    pub fn get_file_content(&self, node: &NodeHash) -> (r: BaseLookup)
        requires
            self.wf(),
        ensures
            r@ == repo_lookup(self.file_contents(), *node),
    {
        match self.files.get(node) {
            Some(content) => BaseLookup::Found(content.clone()),
            None => BaseLookup::Missing,
        }
    }

    fn knows_parent(&self, p: &NodeHash) -> (known: bool)
        requires
            self.wf(),
        ensures
            known == (p.is_null() || self.changesets().contains_key(*p)),
    {
        p.into_option().is_none() || self.changesets.contains(p)
    }

    /// Adds the changeset `node` with its parents, and tells whether it
    /// did. It does unless `node` is the null node, the repository holds it
    /// already, or it does not hold one of the parents.
    pub fn add_changeset(&mut self, node: NodeHash, parents: Parents) -> (added: bool)
        requires
            old(self).wf(),
        ensures
            final(self).wf(),
            added == {
                &&& !node.is_null()
                &&& !old(self).changesets().contains_key(node)
                &&& first_parent_spec(parents).is_null() || old(self).changesets().contains_key(
                    first_parent_spec(parents),
                )
                &&& second_parent_spec(parents).is_null() || old(self).changesets().contains_key(
                    second_parent_spec(parents),
                )
            },
            final(self).changesets() == if added {
                old(self).changesets().insert(node, parents)
            } else {
                old(self).changesets()
            },
            final(self).changelog() == if added {
                old(self).changelog().push(NodeEntry { node, value: parents })
            } else {
                old(self).changelog()
            },
            final(self).path() == old(self).path(),
            final(self).file_contents() == old(self).file_contents(),
            final(self).heads() == old(self).heads(),
            final(self).bookmarks() == old(self).bookmarks(),
    {
        let p1 = parents.first();
        let p2 = parents.second();
        if node.into_option().is_none() || !self.knows_parent(&p1) || !self.knows_parent(&p2) {
            return false;
        }
        let ghost before = self.changesets.entries();
        proof {
            self.changesets.lemma_entries();
            lemma_entries_map(before);
        }
        let added = self.changesets.insert(node, parents);
        proof {
            if added {
                let after = self.changesets.entries();
                assert forall|i: int| 0 <= i < after.len() implies {
                    &&& !(#[trigger] after[i]).node.is_null()
                    &&& parent_known(after, i, first_parent_spec(after[i].value))
                    &&& parent_known(after, i, second_parent_spec(after[i].value))
                } by {
                    if i < before.len() {
                        assert(after[i] == before[i]);
                        let a = first_parent_spec(before[i].value);
                        let b = second_parent_spec(before[i].value);
                        assert(parent_known(before, i, a));
                        assert(parent_known(before, i, b));
                        if !a.is_null() {
                            let j = choose|j: int| 0 <= j < i && (#[trigger] before[j]).node == a;
                            assert(after[j].node == a);
                        }
                        if !b.is_null() {
                            let j = choose|j: int| 0 <= j < i && (#[trigger] before[j]).node == b;
                            assert(after[j].node == b);
                        }
                    } else {
                        if !p1.is_null() {
                            let j = choose|j: int|
                                0 <= j < before.len() && (#[trigger] before[j]).node == p1;
                            assert(after[j].node == p1);
                        }
                        if !p2.is_null() {
                            let j = choose|j: int|
                                0 <= j < before.len() && (#[trigger] before[j]).node == p2;
                            assert(after[j].node == p2);
                        }
                    }
                }
            }
        }
        added
    }

    /// Tells whether the repository holds the changeset `node`.
    pub fn changeset_exists(&self, node: &NodeHash) -> (exists: bool)
        requires
            self.wf(),
        ensures
            exists == self.changesets().contains_key(*node),
    {
        self.changesets.contains(node)
    }

    /// The parents of the changeset `node`, where the repository holds it.
    pub fn get_changeset_by_nodeid(&self, node: &NodeHash) -> (r: Option<Parents>)
        requires
            self.wf(),
        ensures
            r == if self.changesets().contains_key(*node) {
                Some(self.changesets()[*node])
            } else {
                None
            },
    {
        match self.changesets.get(node) {
            Some(parents) => Some(*parents),
            None => None,
        }
    }

    /// The place of the changeset `node` in the order in which the
    /// changesets were added.
    pub fn changeset_position(&self, node: &NodeHash) -> (r: Option<usize>)
        requires
            self.wf(),
        ensures
            r is Some <==> self.changesets().contains_key(*node),
            r matches Some(i) ==> i < self.changelog().len() && self.changelog()[i as int].node
                == *node && self.changelog()[i as int].value == self.changesets()[*node],
    {
        self.changesets.position(node)
    }

    /// The changeset at place `i` of the order in which they were added.
    pub fn changelog_entry(&self, i: usize) -> (e: &NodeEntry<Parents>)
        requires
            i < self.changelog().len(),
        ensures
            *e == self.changelog()[i as int],
    {
        self.changesets.entry(i)
    }

    /// The number of changesets.
    pub fn changeset_count(&self) -> (n: usize)
        ensures
            n == self.changelog().len(),
    {
        self.changesets.len()
    }

    /// Lists `node` as a head.
    pub fn add_head(&mut self, node: NodeHash)
        ensures
            final(self).wf() == old(self).wf(),
            final(self).heads() == old(self).heads().push(node),
            final(self).path() == old(self).path(),
            final(self).file_contents() == old(self).file_contents(),
            final(self).changesets() == old(self).changesets(),
            final(self).changelog() == old(self).changelog(),
            final(self).bookmarks() == old(self).bookmarks(),
    {
        self.heads.push(node);
    }

    /// The heads as the repository lists them.
    pub fn get_heads(&self) -> (heads: &Vec<NodeHash>)
        ensures
            heads@ == self.heads(),
    {
        &self.heads
    }

    /// Lists a bookmark.
    pub fn add_bookmark(&mut self, name: Vec<u8>, node: NodeHash)
        ensures
            final(self).wf() == old(self).wf(),
            final(self).bookmarks() == old(self).bookmarks().push(Bookmark { name, node }),
            final(self).path() == old(self).path(),
            final(self).file_contents() == old(self).file_contents(),
            final(self).changesets() == old(self).changesets(),
            final(self).changelog() == old(self).changelog(),
            final(self).heads() == old(self).heads(),
    {
        self.bookmarks.push(Bookmark { name, node });
    }

    /// The bookmarks as the repository lists them.
    pub fn get_bookmarks(&self) -> (bookmarks: &Vec<Bookmark>)
        ensures
            bookmarks@ == self.bookmarks(),
    {
        &self.bookmarks
    }
}

} // verus!
