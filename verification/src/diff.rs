//! Computing a delta between two buffers.

use vstd::prelude::*;
use crate::delta::{
    apply_spec, cursor_after, fits, fragment_views, patched_prefix, Delta, Fragment,
    FragmentView,
};

verus! {

/// Position `i` of the target holds a byte that the base does not have there.
pub open spec fn differs(b1: Seq<u8>, b2: Seq<u8>, i: int) -> bool {
    0 <= i < b2.len() && (i >= b1.len() || b1[i] != b2[i])
}

/// The start of the run of differing positions that ends just before `i`
/// (`i` itself where position `i - 1` does not differ).
pub open spec fn run_start(b1: Seq<u8>, b2: Seq<u8>, i: int) -> int
    decreases i,
{
    if i > 0 && differs(b1, b2, i - 1) {
        run_start(b1, b2, i - 1)
    } else {
        i
    }
}

/// The fragment for the differing positions `s..e`: it replaces the base
/// bytes at those positions, as far as the base has them, with the target's.
pub open spec fn run_fragment(b1: Seq<u8>, b2: Seq<u8>, s: int, e: int) -> FragmentView {
    FragmentView {
        start: s,
        end: if e <= b1.len() { e } else { b1.len() as int },
        content: b2.subrange(s, e),
    }
}

/// One fragment for each maximal run of differing positions below `i`, in
/// order; a run cut by `i` counts as ending there.
pub open spec fn diff_upto(b1: Seq<u8>, b2: Seq<u8>, i: int) -> Seq<FragmentView>
    decreases i,
    via diff_upto_decreases
{
    if i <= 0 {
        Seq::empty()
    } else if differs(b1, b2, i - 1) {
        let s = run_start(b1, b2, i);
        diff_upto(b1, b2, s).push(run_fragment(b1, b2, s, i))
    } else {
        diff_upto(b1, b2, i - 1)
    }
}

#[via_fn]
proof fn diff_upto_decreases(b1: Seq<u8>, b2: Seq<u8>, i: int) {
    if i > 0 && differs(b1, b2, i - 1) {
        lemma_run_start(b1, b2, i - 1);
    }
}

/// The delta from `b1` to `b2`: a fragment for each maximal run of
/// differing positions, and, where `b1` is the longer, one more that
/// deletes its tail.
pub open spec fn diff_spec(b1: Seq<u8>, b2: Seq<u8>) -> Seq<FragmentView> {
    let runs = diff_upto(b1, b2, b2.len() as int);
    if b1.len() > b2.len() {
        runs.push(
            FragmentView { start: b2.len() as int, end: b1.len() as int, content: Seq::empty() },
        )
    } else {
        runs
    }
}

/// A run starts at or before its end, every position in it differs, and the
/// position before it does not.
pub proof fn lemma_run_start(b1: Seq<u8>, b2: Seq<u8>, i: int)
    requires
        0 <= i,
    ensures
        0 <= run_start(b1, b2, i) <= i,
        forall|j: int| run_start(b1, b2, i) <= j < i ==> differs(b1, b2, j),
        run_start(b1, b2, i) == 0 || !differs(b1, b2, run_start(b1, b2, i) - 1),
    decreases i,
{
    if i > 0 && differs(b1, b2, i - 1) {
        lemma_run_start(b1, b2, i - 1);
    }
}

/// A run that is known to start at `s` and to reach `i` is the run that
/// `run_start` finds from `i`.
pub proof fn lemma_run_start_of(b1: Seq<u8>, b2: Seq<u8>, s: int, i: int)
    requires
        0 <= s <= i,
        s == 0 || !differs(b1, b2, s - 1),
        forall|j: int| s <= j < i ==> differs(b1, b2, j),
    ensures
        run_start(b1, b2, i) == s,
    decreases i - s,
{
    if s < i {
        lemma_run_start_of(b1, b2, s, i - 1);
    }
}

/// Fragments pushed behind the first `k` do not change what those produce.
pub proof fn lemma_patched_prefix_push(
    base: Seq<u8>,
    frags: Seq<FragmentView>,
    f: FragmentView,
    k: int,
)
    requires
        0 <= k <= frags.len(),
    ensures
        patched_prefix(base, frags.push(f), k) == patched_prefix(base, frags, k),
        cursor_after(frags.push(f), k) == cursor_after(frags, k),
    decreases k,
{
    if k > 0 {
        lemma_patched_prefix_push(base, frags, f, k - 1);
        assert(frags.push(f)[k - 1] == frags[k - 1]);
    }
}

/// The fragments for the runs below `i` are well ordered, stay within the
/// first `i` bytes of the base, and with the untouched base bytes behind
/// them give the first `i` bytes of the target.
pub proof fn lemma_diff_upto(b1: Seq<u8>, b2: Seq<u8>, i: int)
    requires
        0 <= i <= b2.len(),
    ensures
        ({
            let frags = diff_upto(b1, b2, i);
            let n = frags.len() as int;
            let m = if i <= b1.len() { i } else { b1.len() as int };
            &&& fits(frags, m)
            &&& 0 <= cursor_after(frags, n) <= m
            &&& forall|k: int| 0 <= k < n ==> (#[trigger] frags[k]).end <= cursor_after(frags, n)
            &&& patched_prefix(b1, frags, n) + b1.subrange(cursor_after(frags, n), m)
                == b2.subrange(0, i)
        }),
    decreases i,
{
    let frags = diff_upto(b1, b2, i);
    let n = frags.len() as int;
    let m = if i <= b1.len() { i } else { b1.len() as int };
    if i <= 0 {
        assert(patched_prefix(b1, frags, n) + b1.subrange(0, 0) =~= b2.subrange(0, 0));
    } else if differs(b1, b2, i - 1) {
        let s = run_start(b1, b2, i);
        lemma_run_start(b1, b2, i);
        lemma_run_start(b1, b2, i - 1);
        lemma_diff_upto(b1, b2, s);
        let g = diff_upto(b1, b2, s);
        let f = run_fragment(b1, b2, s, i);
        let gn = g.len() as int;
        assert(frags == g.push(f));
        assert(s <= b1.len());
        lemma_patched_prefix_push(b1, g, f, gn);
        assert(frags[n - 1] == f);
        assert(patched_prefix(b1, frags, n) == patched_prefix(b1, g, gn) + b1.subrange(
            cursor_after(g, gn),
            s,
        ) + b2.subrange(s, i));
        assert(b2.subrange(0, s) + b2.subrange(s, i) =~= b2.subrange(0, i));
        assert(b1.subrange(m, m) =~= Seq::<u8>::empty());
        assert(patched_prefix(b1, frags, n) + b1.subrange(cursor_after(frags, n), m)
            =~= b2.subrange(0, i));
        assert forall|k: int| 0 <= k < n implies 0 <= (#[trigger] frags[k]).start
            <= frags[k].end <= m && frags[k].end <= cursor_after(frags, n) by {
            if k < gn {
                assert(frags[k] == g[k]);
            }
        }
        assert forall|a: int, b: int| 0 <= a < b < n implies (#[trigger] frags[a]).end <= (
        #[trigger] frags[b]).start by {
            assert(frags[a] == g[a]);
            if b < gn {
                assert(frags[b] == g[b]);
            }
        }
    } else {
        lemma_diff_upto(b1, b2, i - 1);
        let c = cursor_after(frags, n);
        assert(i - 1 < b1.len());
        assert(b1.subrange(c, i) =~= b1.subrange(c, i - 1).push(b1[i - 1]));
        assert(b2.subrange(0, i) =~= b2.subrange(0, i - 1).push(b2[i - 1]));
        assert(patched_prefix(b1, frags, n) + b1.subrange(c, i) =~= (patched_prefix(b1, frags, n)
            + b1.subrange(c, i - 1)).push(b1[i - 1]));
    }
}

/// Round trip: the computed delta fits its base, and applying it to the
/// base gives the target.
pub proof fn lemma_diff_roundtrip(b1: Seq<u8>, b2: Seq<u8>)
    ensures
        fits(diff_spec(b1, b2), b1.len() as int),
        apply_spec(b1, diff_spec(b1, b2)) == b2,
{
    let runs = diff_upto(b1, b2, b2.len() as int);
    let n = runs.len() as int;
    lemma_diff_upto(b1, b2, b2.len() as int);
    assert(b2.subrange(0, b2.len() as int) =~= b2);
    if b1.len() > b2.len() {
        let f = FragmentView {
            start: b2.len() as int,
            end: b1.len() as int,
            content: Seq::empty(),
        };
        let frags = runs.push(f);
        lemma_patched_prefix_push(b1, runs, f, n);
        assert(frags[n] == f);
        assert(patched_prefix(b1, frags, n + 1) == patched_prefix(b1, runs, n) + b1.subrange(
            cursor_after(runs, n),
            b2.len() as int,
        ) + Seq::<u8>::empty());
        assert(apply_spec(b1, frags) =~= b2);
        assert forall|k: int| 0 <= k < frags.len() implies 0 <= (#[trigger] frags[k]).start
            <= frags[k].end <= b1.len() by {
            if k < n {
                assert(frags[k] == runs[k]);
            }
        }
        assert forall|a: int, b: int| 0 <= a < b < frags.len() implies (#[trigger] frags[a]).end
            <= (#[trigger] frags[b]).start by {
            assert(frags[a] == runs[a]);
            if b < n {
                assert(frags[b] == runs[b]);
            }
        }
    } else {
        assert(apply_spec(b1, runs) =~= b2);
    }
}

/// Computes the delta from `b1` to `b2`. Applying it to `b1` gives `b2`.
pub fn compute_delta(b1: &[u8], b2: &[u8]) -> (d: Delta)
    ensures
        d@ == diff_spec(b1@, b2@),
        fits(d@, b1@.len() as int),
        apply_spec(b1@, d@) == b2@,
{
    let mut frags: Vec<Fragment> = Vec::new();
    let mut start: usize = 0;
    let mut frag: Vec<u8> = Vec::new();
    let mut idx: usize = 0;
    while idx < b2.len()
        invariant
            idx <= b2@.len(),
            frag.len() > 0 ==> {
                &&& start < idx
                &&& frag@ == b2@.subrange(start as int, idx as int)
                &&& start == 0 || !differs(b1@, b2@, start - 1)
                &&& forall|j: int| start <= j < idx ==> differs(b1@, b2@, j)
                &&& fragment_views(frags@) == diff_upto(b1@, b2@, start as int)
            },
            frag.len() == 0 ==> {
                &&& fragment_views(frags@) == diff_upto(b1@, b2@, idx as int)
                &&& idx == 0 || !differs(b1@, b2@, idx - 1)
            },
        decreases b2@.len() - idx,
    {
        let v2 = b2[idx];
        if idx < b1.len() && b1[idx] == v2 {
            if frag.len() > 0 {
                proof {
                    lemma_run_start_of(b1@, b2@, start as int, idx as int);
                    assert(fragment_views(
                        frags@.push(Fragment { start, end: idx, content: frag }),
                    ) =~= fragment_views(frags@).push(
                        run_fragment(b1@, b2@, start as int, idx as int),
                    ));
                }
                frags.push(Fragment { start, end: idx, content: frag });
                frag = Vec::new();
                assert(differs(b1@, b2@, idx - 1));
                assert(fragment_views(frags@) == diff_upto(b1@, b2@, idx as int));
            }
            assert(!differs(b1@, b2@, idx as int));
            assert(diff_upto(b1@, b2@, idx + 1) == diff_upto(b1@, b2@, idx as int));
        } else {
            if frag.len() == 0 {
                start = idx;
            }
            frag.push(v2);
            assert(frag@ =~= b2@.subrange(start as int, idx + 1));
        }
        idx = idx + 1;
    }
    if frag.len() > 0 {
        let end = if idx <= b1.len() { idx } else { b1.len() };
        proof {
            lemma_run_start_of(b1@, b2@, start as int, idx as int);
            assert(fragment_views(frags@.push(Fragment { start, end, content: frag }))
                =~= fragment_views(frags@).push(
                run_fragment(b1@, b2@, start as int, idx as int),
            ));
        }
        frags.push(Fragment { start, end, content: frag });
    }
    if b1.len() > b2.len() {
        let tail = Fragment { start: b2.len(), end: b1.len(), content: Vec::new() };
        proof {
            assert(fragment_views(frags@.push(tail)) =~= fragment_views(frags@).push(tail@));
        }
        frags.push(tail);
    }
    proof {
        lemma_diff_roundtrip(b1@, b2@);
    }
    Delta::from_ordered(frags)
}

} // verus!
