//! The parents of a changeset.

use vstd::prelude::*;
use crate::nodehash::{null_hash, NodeHash};

verus! {

/// The parents of a changeset.
#[derive(Clone, Copy, Debug, PartialEq, Eq)]
pub enum Parents {
    Zero,
    One(NodeHash),
    Two(NodeHash, NodeHash),
}

/// The first parent, or the null node where there is none.
pub open spec fn first_parent_spec(parents: Parents) -> NodeHash {
    match parents {
        Parents::Zero => null_hash(),
        Parents::One(p) => p,
        Parents::Two(p, _) => p,
    }
}

/// The second parent, or the null node where there is none.
pub open spec fn second_parent_spec(parents: Parents) -> NodeHash {
    match parents {
        Parents::Zero => null_hash(),
        Parents::One(_) => null_hash(),
        Parents::Two(_, p) => p,
    }
}

/// The parents that two wire slots say: a null slot is no parent.
pub open spec fn parents_of_slots(p1: NodeHash, p2: NodeHash) -> Parents {
    if p1.is_null() {
        if p2.is_null() {
            Parents::Zero
        } else {
            Parents::One(p2)
        }
    } else if p2.is_null() {
        Parents::One(p1)
    } else {
        Parents::Two(p1, p2)
    }
}

/// No parent is the null node.
pub open spec fn parents_wf(parents: Parents) -> bool {
    match parents {
        Parents::Zero => true,
        Parents::One(p) => !p.is_null(),
        Parents::Two(p, q) => !p.is_null() && !q.is_null(),
    }
}

/// Parents written to their two slots read back as they were.
pub proof fn lemma_parents_slots(parents: Parents)
    requires
        parents_wf(parents),
    ensures
        parents_of_slots(first_parent_spec(parents), second_parent_spec(parents)) == parents,
{
    crate::nodehash::lemma_null_hash(null_hash());
}

impl Parents {
    /// The first parent, or the null node where there is none.
    pub fn first(&self) -> (p: NodeHash)
        ensures
            p == first_parent_spec(*self),
    {
        match self {
            Parents::Zero => NodeHash::null(),
            Parents::One(p) => *p,
            Parents::Two(p, _) => *p,
        }
    }

    /// The second parent, or the null node where there is none.
    pub fn second(&self) -> (p: NodeHash)
        ensures
            p == second_parent_spec(*self),
    {
        match self {
            Parents::Zero => NodeHash::null(),
            Parents::One(_) => NodeHash::null(),
            Parents::Two(_, p) => *p,
        }
    }

    /// The parents that two wire slots say: a null slot is no parent.
    pub fn from_slots(p1: NodeHash, p2: NodeHash) -> (parents: Parents)
        ensures
            parents == parents_of_slots(p1, p2),
            parents_wf(parents),
    {
        match (p1.into_option(), p2.into_option()) {
            (None, None) => Parents::Zero,
            (Some(p), None) => Parents::One(p),
            (None, Some(p)) => Parents::One(p),
            (Some(a), Some(b)) => Parents::Two(a, b),
        }
    }
}

} // verus!
