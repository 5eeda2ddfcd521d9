//! A map keyed by node, kept in insertion order.

use std::collections::HashMap;
use vstd::prelude::*;
use crate::nodehash::NodeHash;

verus! {

broadcast use vstd::std_specs::hash::group_hash_axioms;

/// The number that the first `k` bytes of a node make, the first byte
/// highest.
spec fn prefix_upto(n: NodeHash, k: int) -> int
    decreases k,
{
    if k <= 0 {
        0
    } else {
        prefix_upto(n, k - 1) * 256 + n.bytes[k - 1]
    }
}

/// The number under which a node is indexed: its first eight bytes.
spec fn prefix_spec(n: NodeHash) -> int {
    prefix_upto(n, 8)
}

fn prefix(n: &NodeHash) -> (p: u64)
    ensures
        p == prefix_spec(*n),
{
    proof {
        reveal_with_fuel(prefix_upto, 9);
    }
    let mut key = n.bytes[0] as u64;
    key = key * 256 + n.bytes[1] as u64;
    key = key * 256 + n.bytes[2] as u64;
    key = key * 256 + n.bytes[3] as u64;
    key = key * 256 + n.bytes[4] as u64;
    key = key * 256 + n.bytes[5] as u64;
    key = key * 256 + n.bytes[6] as u64;
    key * 256 + n.bytes[7] as u64
}

/// One node with what the map holds for it.
pub struct NodeEntry<V> {
    pub node: NodeHash,
    pub value: V,
}

/// The map that a list of entries stands for.
pub open spec fn entries_map<V>(entries: Seq<NodeEntry<V>>) -> Map<NodeHash, V>
    decreases entries.len(),
{
    if entries.len() == 0 {
        Map::empty()
    } else {
        entries_map(entries.drop_last()).insert(entries.last().node, entries.last().value)
    }
}

/// No two entries have the same node.
pub open spec fn distinct_nodes<V>(entries: Seq<NodeEntry<V>>) -> bool {
    forall|i: int, j: int|
        0 <= i < j < entries.len() ==> (#[trigger] entries[i]).node != (#[trigger] entries[j]).node
}

/// With distinct nodes, the map holds each entry under its node and
/// nothing else, so it has as many nodes as there are entries.
pub proof fn lemma_entries_map<V>(entries: Seq<NodeEntry<V>>)
    requires
        distinct_nodes(entries),
    ensures
        entries_map(entries).dom().finite(),
        entries_map(entries).dom().len() == entries.len(),
        forall|i: int|
            0 <= i < entries.len() ==> entries_map(entries).contains_key(
                (#[trigger] entries[i]).node,
            ) && entries_map(entries)[entries[i].node] == entries[i].value,
        forall|n: NodeHash|
            entries_map(entries).contains_key(n) ==> exists|i: int|
                0 <= i < entries.len() && (#[trigger] entries[i]).node == n,
    decreases entries.len(),
{
    if entries.len() > 0 {
        let front = entries.drop_last();
        let last = entries.last();
        lemma_entries_map(front);
        assert forall|i: int| 0 <= i < entries.len() implies entries_map(entries).contains_key(
            (#[trigger] entries[i]).node,
        ) && entries_map(entries)[entries[i].node] == entries[i].value by {
            if i < front.len() {
                assert(entries[i] == front[i]);
                assert(entries[i].node != entries[entries.len() - 1].node);
            }
        }
        assert forall|n: NodeHash| entries_map(entries).contains_key(n) implies exists|i: int|
            0 <= i < entries.len() && (#[trigger] entries[i]).node == n by {
            if n == last.node {
                assert(entries[entries.len() - 1].node == n);
            } else {
                let i = choose|i: int| 0 <= i < front.len() && (#[trigger] front[i]).node == n;
                assert(entries[i].node == n);
            }
        }
        assert(!entries_map(front).contains_key(last.node)) by {
            if entries_map(front).contains_key(last.node) {
                let i = choose|i: int|
                    0 <= i < front.len() && (#[trigger] front[i]).node == last.node;
                assert(entries[i].node == entries[entries.len() - 1].node);
            }
        }
        assert(entries_map(entries).dom() =~= entries_map(front).dom().insert(last.node));
    }
}

/// A map from nodes to values. Nodes are unique; entries keep the order in
/// which they were put in.
pub struct NodeMap<V> {
    entries: Vec<NodeEntry<V>>,
    index: HashMap<u64, Vec<usize>>,
}

impl<V> View for NodeMap<V> {
    type V = Map<NodeHash, V>;

    closed spec fn view(&self) -> Map<NodeHash, V> {
        entries_map(self.entries@)
    }
}

impl<V> NodeMap<V> {
    /// The invariant of the map: no node was put into it twice, and the
    /// index leads to every entry.
    pub closed spec fn wf(&self) -> bool {
        &&& distinct_nodes(self.entries@)
        &&& forall|i: int|
            0 <= i < self.entries@.len() ==> self.indexed(
                i,
                prefix_spec((#[trigger] self.entries@[i]).node),
            )
        &&& forall|key: u64, j: int|
            self.index@.contains_key(key) && 0 <= j < self.index@[key]@.len() ==> (
            #[trigger] self.index@[key]@[j]) < self.entries@.len()
    }

    /// The index holds place `i` under `key`.
    closed spec fn indexed(&self, i: int, key: int) -> bool {
        &&& 0 <= key <= u64::MAX
        &&& self.index@.contains_key(key as u64)
        &&& exists|m: int|
            0 <= m < self.index@[key as u64]@.len() && #[trigger] self.index@[key as u64]@[m] == i
    }

    /// The entries in the order in which they were put in.
    pub closed spec fn entries(&self) -> Seq<NodeEntry<V>> {
        self.entries@
    }

    /// The map and the list of entries say the same.
    pub proof fn lemma_entries(&self)
        requires
            self.wf(),
        ensures
            self@ == entries_map(self.entries()),
            distinct_nodes(self.entries()),
            self@.dom().finite(),
            self@.dom().len() == self.entries().len(),
    {
        lemma_entries_map(self.entries@);
    }

    /// An empty map.
    pub fn new() -> (m: NodeMap<V>)
        ensures
            m.wf(),
            m@ == Map::<NodeHash, V>::empty(),
            m.entries() == Seq::<NodeEntry<V>>::empty(),
    {
        NodeMap { entries: Vec::new(), index: HashMap::new() }
    }

    /// The number of nodes.
    pub fn len(&self) -> (n: usize)
        ensures
            n == self.entries().len(),
    {
        self.entries.len()
    }

    /// The place of `node` among the entries.
    pub fn position(&self, node: &NodeHash) -> (r: Option<usize>)
        requires
            self.wf(),
        ensures
            r is Some <==> self@.contains_key(*node),
            r matches Some(i) ==> i < self.entries().len() && self.entries()[i as int].node
                == *node && self@[*node] == self.entries()[i as int].value,
    {
        proof {
            lemma_entries_map(self.entries@);
        }
        let key = prefix(node);
        let bucket = match self.index.get(&key) {
            Some(bucket) => bucket,
            None => {
                assert forall|i: int| 0 <= i < self.entries@.len() implies (
                #[trigger] self.entries@[i]).node != *node by {
                    assert(self.indexed(i, prefix_spec(self.entries@[i].node)));
                }
                return None;
            },
        };
        let mut j: usize = 0;
        while j < bucket.len()
            invariant
                j <= bucket@.len(),
                self.wf(),
                self.index@.contains_key(key),
                *bucket == self.index@[key],
                forall|m: int|
                    0 <= m < j ==> self.entries@[(#[trigger] bucket@[m]) as int].node != *node,
                forall|i: int|
                    0 <= i < self.entries@.len() ==> self@.contains_key(
                        (#[trigger] self.entries@[i]).node,
                    ) && self@[self.entries@[i].node] == self.entries@[i].value,
            decreases bucket@.len() - j,
        {
            let i = bucket[j];
            assert(self.index@[key]@[j as int] < self.entries@.len());
            if self.entries[i].node == *node {
                return Some(i);
            }
            j = j + 1;
        }
        assert forall|i: int| 0 <= i < self.entries@.len() implies (
        #[trigger] self.entries@[i]).node != *node by {
            if self.entries@[i].node == *node {
                assert(self.indexed(i, prefix_spec(self.entries@[i].node)));
                let m = choose|m: int| 0 <= m < bucket@.len() && #[trigger] bucket@[m] == i;
                assert(self.entries@[bucket@[m] as int].node != *node);
            }
        }
        None
    }

    /// The entry at place `i`.
    pub fn entry(&self, i: usize) -> (e: &NodeEntry<V>)
        requires
            i < self.entries().len(),
        ensures
            *e == self.entries()[i as int],
    {
        &self.entries[i]
    }

    /// Tells whether the map holds `node`.
    pub fn contains(&self, node: &NodeHash) -> (r: bool)
        requires
            self.wf(),
        ensures
            r == self@.contains_key(*node),
    {
        self.position(node).is_some()
    }

    /// What the map holds for `node`.
    pub fn get(&self, node: &NodeHash) -> (r: Option<&V>)
        requires
            self.wf(),
        ensures
            r is Some <==> self@.contains_key(*node),
            r matches Some(v) ==> *v == self@[*node],
    {
        match self.position(node) {
            Some(i) => Some(&self.entries[i].value),
            None => None,
        }
    }

    /// Puts `value` under `node`, unless the map holds the node already;
    /// tells whether it did.
    pub fn insert(&mut self, node: NodeHash, value: V) -> (inserted: bool)
        requires
            old(self).wf(),
        ensures
            final(self).wf(),
            inserted == !old(self)@.contains_key(node),
            final(self)@ == if inserted {
                old(self)@.insert(node, value)
            } else {
                old(self)@
            },
            final(self).entries() == if inserted {
                old(self).entries().push(NodeEntry { node, value })
            } else {
                old(self).entries()
            },
    {
        if self.contains(&node) {
            return false;
        }
        let place = self.entries.len();
        let key = prefix(&node);
        let ghost entry = NodeEntry { node, value };
        let ghost before = self.entries@;
        let ghost index_before = self.index@;
        proof {
            lemma_entries_map(before);
            assert(before.push(entry).drop_last() =~= before);
            assert forall|i: int, j: int| 0 <= i < j < before.push(entry).len() implies (
            #[trigger] before.push(entry)[i]).node != (#[trigger] before.push(entry)[j]).node by {
                if j == before.len() {
                    assert(before[i].node != node);
                }
            }
        }
        let mut bucket = match self.index.remove(&key) {
            Some(bucket) => bucket,
            None => Vec::new(),
        };
        let ghost bucket_before = bucket@;
        bucket.push(place);
        self.index.insert(key, bucket);
        self.entries.push(NodeEntry { node, value });
        proof {
            assert(self.index@ =~= index_before.insert(key, bucket));
            assert(bucket@[bucket_before.len() as int] == place);
            assert(index_before.contains_key(key) ==> index_before[key]@ == bucket_before);
            assert forall|i: int| 0 <= i < self.entries@.len() implies self.indexed(
                i,
                prefix_spec((#[trigger] self.entries@[i]).node),
            ) by {
                if i < before.len() {
                    assert(self.entries@[i] == before[i]);
                    assert(old(self).indexed(i, prefix_spec(before[i].node)));
                    let k = prefix_spec(before[i].node) as u64;
                    let m = choose|m: int|
                        0 <= m < index_before[k]@.len() && #[trigger] index_before[k]@[m] == i;
                    assert(self.index@[k]@[m] == i);
                } else {
                    let w = bucket_before.len() as int;
                    assert(prefix_spec(node) as u64 == key);
                    assert(self.index@[prefix_spec(node) as u64]@[w] == i);
                }
            }
            assert forall|k: u64, j: int|
                self.index@.contains_key(k) && 0 <= j < self.index@[k]@.len() implies (
            #[trigger] self.index@[k]@[j]) < self.entries@.len() by {
                if k == key {
                    if j < bucket_before.len() {
                        assert(index_before.contains_key(key));
                        assert(index_before[key]@[j] < before.len());
                    }
                } else {
                    assert(index_before[k]@[j] < before.len());
                }
            }
        }
        true
    }
}

} // verus!
