//! Walking the first-parent ancestors of a changeset, and sampling them.

use vstd::prelude::*;
use vstd::arithmetic::power2::{is_pow2, lemma_pow2_unfold, pow2};
use crate::changeset::{first_parent_spec, Parents};
use crate::nodehash::{lemma_null_hash, NodeHash};

verus! {

/// A walk from a changeset down its first parents, which stops at `bottom`
/// or at the null node. It asks for one changeset at a time.
#[derive(Clone, Copy, Debug, PartialEq, Eq)]
pub struct ParentStream {
    /// The node that comes next.
    pub n: NodeHash,
    /// The node at which the walk stops.
    pub bottom: NodeHash,
}

impl ParentStream {
    /// The walk is over: the next node is `bottom` or the null node.
    pub open spec fn finished(self) -> bool {
        self.n == self.bottom || self.n.is_null()
    }

    /// A walk that starts at `top` and stops at `bottom`.
    pub fn new(top: NodeHash, bottom: NodeHash) -> (walk: ParentStream)
        ensures
            walk == (ParentStream { n: top, bottom }),
    {
        ParentStream { n: top, bottom }
    }

    /// The changeset whose parents the walk needs next; none when the walk
    /// is over.
    pub fn pending(&self) -> (r: Option<NodeHash>)
        ensures
            r == if self.finished() {
                None
            } else {
                Some(self.n)
            },
    {
        let null = NodeHash::null();
        proof {
            lemma_null_hash(self.n);
        }
        if self.n == self.bottom || self.n == null {
            None
        } else {
            Some(self.n)
        }
    }

    /// Takes the parents of the pending changeset: emits that changeset and
    /// moves on to its first parent. A walk that is over emits nothing and
    /// stays as it is.
    pub fn advance(&mut self, parents: &Parents) -> (emitted: Option<NodeHash>)
        ensures
            old(self).finished() ==> emitted is None && *final(self) == *old(self),
            !old(self).finished() ==> emitted == Some(old(self).n) && *final(self) == (
            ParentStream { n: first_parent_spec(*parents), bottom: old(self).bottom }),
    {
        match self.pending() {
            None => None,
            Some(n) => {
                self.n = parents.first();
                Some(n)
            },
        }
    }
}

/// The elements of `chain` at the places `idx`, `2 * idx`, `4 * idx` and so
/// on, as far as the chain goes.
pub open spec fn sampled_from<T>(chain: Seq<T>, idx: int) -> Seq<T>
    decreases
        (if idx < chain.len() {
            chain.len() - idx
        } else {
            0
        }),
{
    if 0 < idx < chain.len() {
        seq![chain[idx]] + sampled_from(chain, 2 * idx)
    } else {
        Seq::empty()
    }
}

/// The exponential sample of `chain`: its elements at the places 1, 2, 4,
/// 8 and so on.
pub open spec fn sampled<T>(chain: Seq<T>) -> Seq<T> {
    sampled_from(chain, 1)
}

/// The sample from `pow2(e)` on holds, at place `k`, the element of the
/// chain at place `pow2(e + k)`.
pub proof fn lemma_sampled_from_at<T>(chain: Seq<T>, e: nat, k: nat)
    requires
        k < sampled_from(chain, pow2(e) as int).len(),
    ensures
        pow2(e + k) < chain.len(),
        sampled_from(chain, pow2(e) as int)[k as int] == chain[pow2(e + k) as int],
    decreases k,
{
    let idx = pow2(e) as int;
    vstd::arithmetic::power2::lemma_pow2_pos(e);
    lemma_pow2_unfold(e + 1);
    let rest = sampled_from(chain, 2 * idx);
    assert(sampled_from(chain, idx) == seq![chain[idx]] + rest);
    if k > 0 {
        let j = (k - 1) as nat;
        lemma_sampled_from_at(chain, e + 1, j);
        assert(e + k == e + 1 + j);
    } else {
        assert(e + k == e);
    }
}

/// The sample from `pow2(e)` on ends before the first place of the form
/// `pow2(e + k)` that the chain does not have.
pub proof fn lemma_sampled_from_len<T>(chain: Seq<T>, e: nat)
    ensures
        pow2(e + sampled_from(chain, pow2(e) as int).len()) >= chain.len(),
    decreases
        (if pow2(e) < chain.len() {
            chain.len() - pow2(e)
        } else {
            0
        }),
{
    let idx = pow2(e) as int;
    vstd::arithmetic::power2::lemma_pow2_pos(e);
    lemma_pow2_unfold(e + 1);
    if idx < chain.len() {
        lemma_sampled_from_len(chain, e + 1);
        let rest = sampled_from(chain, 2 * idx);
        assert(sampled_from(chain, idx) == seq![chain[idx]] + rest);
        assert(e + sampled_from(chain, idx).len() == e + 1 + rest.len());
    } else {
        assert(sampled_from(chain, idx).len() == 0);
        assert(e + sampled_from(chain, idx).len() == e);
    }
}

/// The exponential sample holds, at place `k`, the element of the chain at
/// place `pow2(k)`, for every such place that the chain has.
pub proof fn lemma_sampled<T>(chain: Seq<T>)
    ensures
        forall|k: nat|
            #![trigger pow2(k)]
            k < sampled(chain).len() ==> pow2(k) < chain.len() && sampled(chain)[k as int]
                == chain[pow2(k) as int],
        pow2(sampled(chain).len()) >= chain.len(),
{
    vstd::arithmetic::power2::lemma2_to64();
    lemma_sampled_from_len(chain, 0);
    assert forall|k: nat|
        #![trigger pow2(k)]
        k < sampled(chain).len() implies pow2(k) < chain.len() && sampled(chain)[k as int]
        == chain[pow2(k) as int] by {
        lemma_sampled_from_at(chain, 0, k);
        assert(0 + k == k);
    }
    assert(0 + sampled(chain).len() == sampled(chain).len());
}

/// Samples `chain` exponentially: keeps its elements at the places 1, 2, 4,
/// 8 and so on.
pub fn sample_exponential(chain: &Vec<NodeHash>) -> (kept: Vec<NodeHash>)
    ensures
        kept@ == sampled(chain@),
{
    let mut kept: Vec<NodeHash> = Vec::new();
    let mut idx: usize = 1;
    while idx < chain.len()
        invariant
            0 < idx,
            kept@ + sampled_from(chain@, idx as int) == sampled(chain@),
        decreases
            (if idx < chain@.len() {
                chain@.len() - idx
            } else {
                0
            }),
    {
        let ghost before = kept@;
        kept.push(chain[idx]);
        assert(kept@ + sampled_from(chain@, 2 * idx) =~= before + sampled_from(
            chain@,
            idx as int,
        ));
        if idx > usize::MAX / 2 {
            assert(sampled_from(chain@, 2 * idx) =~= Seq::<NodeHash>::empty());
            assert(kept@ + Seq::<NodeHash>::empty() =~= kept@);
            return kept;
        }
        idx = 2 * idx;
    }
    assert(kept@ + sampled_from(chain@, idx as int) =~= kept@);
    kept
}

/// There is no power of two strictly between a power of two and its double.
pub proof fn lemma_pow2_gap(p: int, j: int)
    requires
        is_pow2(p),
        p < j < 2 * p,
    ensures
        !is_pow2(j),
    decreases j,
{
    reveal(is_pow2);
    if is_pow2(j) && p > 1 {
        lemma_pow2_gap(p / 2, j / 2);
    }
}

/// The double of a power of two is a power of two.
pub proof fn lemma_pow2_double(p: int)
    requires
        is_pow2(p),
    ensures
        is_pow2(2 * p),
{
    reveal(is_pow2);
}

/// The elements of `chain` before place `i` whose place is a power of two:
/// what a filter keeps that is asked about each element in turn.
pub open spec fn kept_upto<T>(chain: Seq<T>, i: int) -> Seq<T>
    decreases i,
{
    if i <= 0 {
        Seq::empty()
    } else if is_pow2(i - 1) {
        kept_upto(chain, i - 1).push(chain[i - 1])
    } else {
        kept_upto(chain, i - 1)
    }
}

/// Between a power of two and its double nothing more is kept.
pub proof fn lemma_kept_gap<T>(chain: Seq<T>, p: int, j: int)
    requires
        is_pow2(p),
        p < j <= 2 * p,
    ensures
        kept_upto(chain, j) == kept_upto(chain, p + 1),
    decreases j,
{
    if j > p + 1 {
        lemma_pow2_gap(p, j - 1);
        lemma_kept_gap(chain, p, j - 1);
    }
}

/// What is kept of the whole chain is what is kept before the power of
/// two `p` and then the sample from `p` on.
pub proof fn lemma_kept_from<T>(chain: Seq<T>, p: int)
    requires
        is_pow2(p),
    ensures
        kept_upto(chain, chain.len() as int) == kept_upto(
            chain,
            if p <= chain.len() {
                p
            } else {
                chain.len() as int
            },
        ) + sampled_from(chain, p),
    decreases
        (if p < chain.len() {
            chain.len() - p
        } else {
            0
        }),
{
    let n = chain.len() as int;
    assert(p > 0) by {
        reveal(is_pow2);
    }
    if p < n {
        lemma_pow2_double(p);
        lemma_kept_from(chain, 2 * p);
        let m = if 2 * p <= n { 2 * p } else { n };
        lemma_kept_gap(chain, p, m);
        assert(kept_upto(chain, p + 1) == kept_upto(chain, p).push(chain[p]));
        assert(kept_upto(chain, p).push(chain[p]) + sampled_from(chain, 2 * p) =~= kept_upto(
            chain,
            p,
        ) + sampled_from(chain, p));
    } else {
        assert(kept_upto(chain, n) + sampled_from(chain, p) =~= kept_upto(chain, n));
    }
}

/// Keeping the elements at the places that are powers of two, one element
/// at a time, gives the exponential sample.
pub proof fn lemma_kept_is_sampled<T>(chain: Seq<T>)
    ensures
        kept_upto(chain, chain.len() as int) == sampled(chain),
{
    assert(is_pow2(1) && !is_pow2(0)) by {
        reveal(is_pow2);
    }
    lemma_kept_from(chain, 1);
    if chain.len() >= 1 {
        assert(kept_upto(chain, 0) =~= Seq::<T>::empty());
        assert(kept_upto(chain, 1) == kept_upto(chain, 0));
        assert(kept_upto(chain, 1) + sampled(chain) =~= sampled(chain));
    } else {
        assert(kept_upto(chain, 0) + sampled(chain) =~= sampled(chain));
    }
}

/// The filter that samples a walk while it runs: it is asked once for each
/// element, in order, and keeps those at the places 1, 2, 4, 8 and so on.
#[derive(Clone, Copy, Debug, PartialEq, Eq)]
pub struct Sampler {
    seen: usize,
    next: usize,
}

impl Sampler {
    /// The place of the element that the filter is asked about next.
    pub closed spec fn seen(self) -> int {
        self.seen as int
    }

    /// The invariant of the filter: it knows the next place to keep, if a
    /// `usize` can hold one.
    pub closed spec fn wf(self) -> bool {
        if self.next == 0 {
            forall|j: int| self.seen <= j <= usize::MAX ==> !is_pow2(j)
        } else {
            &&& is_pow2(self.next as int)
            &&& self.seen <= self.next
            &&& forall|j: int| self.seen <= j < self.next ==> !is_pow2(j)
        }
    }

    /// A filter for a new walk.
    pub fn new() -> (sampler: Sampler)
        ensures
            sampler.wf(),
            sampler.seen() == 0,
    {
        proof {
            reveal(is_pow2);
        }
        Sampler { seen: 0, next: 1 }
    }

    /// Tells whether the filter has been asked as often as a `usize` can
    /// count, so that it cannot be asked again.
    pub fn exhausted(&self) -> (r: bool)
        ensures
            r == (self.seen() >= usize::MAX),
    {
        self.seen == usize::MAX
    }

    /// Tells whether the next element is kept: it is where its place is a
    /// power of two.
    pub fn keep(&mut self) -> (kept: bool)
        requires
            old(self).wf(),
            old(self).seen() < usize::MAX,
        ensures
            final(self).wf(),
            final(self).seen() == old(self).seen() + 1,
            kept == is_pow2(old(self).seen()),
    {
        let kept = self.next != 0 && self.seen == self.next;
        if kept {
            if self.next > usize::MAX / 2 {
                proof {
                    assert forall|j: int| self.seen + 1 <= j <= usize::MAX implies !is_pow2(j) by {
                        lemma_pow2_gap(self.next as int, j);
                    }
                }
                self.next = 0;
            } else {
                proof {
                    lemma_pow2_double(self.next as int);
                    assert forall|j: int| self.seen + 1 <= j < 2 * self.next implies !is_pow2(
                        j,
                    ) by {
                        lemma_pow2_gap(self.next as int, j);
                    }
                }
                self.next = 2 * self.next;
            }
        }
        self.seen = self.seen + 1;
        kept
    }
}

} // verus!
