//! Deltas: ordered fragments that rewrite a base buffer.

use vstd::prelude::*;
use crate::errors::{Error, ErrorKind};

verus! {

/// Replaces `base[start..end]` with `content`.
#[derive(Debug, PartialEq, Eq)]
pub struct Fragment {
    pub start: usize,
    pub end: usize,
    pub content: Vec<u8>,
}

/// A fragment as a mathematical value.
pub struct FragmentView {
    pub start: int,
    pub end: int,
    pub content: Seq<u8>,
}

impl View for Fragment {
    type V = FragmentView;

    open spec fn view(&self) -> FragmentView {
        FragmentView { start: self.start as int, end: self.end as int, content: self.content@ }
    }
}

impl Clone for Fragment {
    fn clone(&self) -> (r: Fragment)
        ensures
            r@ == self@,
    {
        Fragment { start: self.start, end: self.end, content: self.content.clone() }
    }
}

/// The views of a list of fragments, in order.
pub open spec fn fragment_views(frags: Seq<Fragment>) -> Seq<FragmentView> {
    Seq::new(frags.len(), |i: int| frags[i]@)
}

/// Every fragment has `start <= end`, and each one begins at or after the
/// end of all those before it.
pub open spec fn well_ordered(frags: Seq<FragmentView>) -> bool {
    &&& forall|i: int| 0 <= i < frags.len() ==> 0 <= (#[trigger] frags[i]).start <= frags[i].end
    &&& forall|i: int, j: int|
        0 <= i < j < frags.len() ==> (#[trigger] frags[i]).end <= (#[trigger] frags[j]).start
}

/// The fragments are well ordered and none reaches past a base of `len` bytes.
pub open spec fn fits(frags: Seq<FragmentView>, len: int) -> bool {
    &&& well_ordered(frags)
    &&& forall|i: int| 0 <= i < frags.len() ==> (#[trigger] frags[i]).end <= len
}

/// Where reading of the base resumes after the first `k` fragments.
pub open spec fn cursor_after(frags: Seq<FragmentView>, k: int) -> int {
    if k <= 0 {
        0
    } else {
        frags[k - 1].end
    }
}

/// The output produced by the first `k` fragments: for each, the untouched
/// base bytes before it, then its content.
pub open spec fn patched_prefix(base: Seq<u8>, frags: Seq<FragmentView>, k: int) -> Seq<u8>
    decreases k,
{
    if k <= 0 {
        Seq::empty()
    } else {
        patched_prefix(base, frags, k - 1) + base.subrange(
            cursor_after(frags, k - 1),
            frags[k - 1].start,
        ) + frags[k - 1].content
    }
}

/// The result of applying fragments that fit `base`: the patched prefix,
/// then the rest of the base.
pub open spec fn apply_spec(base: Seq<u8>, frags: Seq<FragmentView>) -> Seq<u8> {
    patched_prefix(base, frags, frags.len() as int) + base.subrange(
        cursor_after(frags, frags.len() as int),
        base.len() as int,
    )
}

/// An ordered sequence of fragments.
#[derive(Debug, PartialEq, Eq)]
pub struct Delta {
    frags: Vec<Fragment>,
}

impl View for Delta {
    type V = Seq<FragmentView>;

    closed spec fn view(&self) -> Seq<FragmentView> {
        fragment_views(self.frags@)
    }
}

impl Clone for Delta {
    fn clone(&self) -> (r: Delta)
        ensures
            r@ == self@,
    {
        let mut frags: Vec<Fragment> = Vec::new();
        let mut k: usize = 0;
        while k < self.frags.len()
            invariant
                k <= self.frags.len(),
                frags.len() == k,
                forall|i: int| 0 <= i < k ==> frags[i]@ == self.frags[i]@,
            decreases self.frags.len() - k,
        {
            frags.push(self.frags[k].clone());
            k = k + 1;
        }
        assert(fragment_views(frags@) =~= fragment_views(self.frags@));
        Delta { frags }
    }
}

impl Delta {
    /// Builds a delta from fragments, which must be well ordered.
    pub fn new(frags: Vec<Fragment>) -> (r: Result<Delta, Error>)
        ensures
            r is Ok <==> well_ordered(fragment_views(frags@)),
            r matches Ok(d) ==> d@ == fragment_views(frags@),
            r matches Err(e) ==> e == (Error { kind: ErrorKind::InvalidDelta, context: None }),
    {
        let ghost views = fragment_views(frags@);
        let mut k: usize = 0;
        let mut cursor: usize = 0;
        while k < frags.len()
            invariant
                k <= frags.len(),
                views == fragment_views(frags@),
                cursor == cursor_after(views, k as int),
                forall|i: int| 0 <= i < k ==> 0 <= (#[trigger] views[i]).start <= views[i].end,
                forall|i: int| 0 <= i < k ==> (#[trigger] views[i]).end <= cursor,
                forall|i: int, j: int|
                    0 <= i < j < k ==> (#[trigger] views[i]).end <= (#[trigger] views[j]).start,
            decreases frags.len() - k,
        {
            let frag = &frags[k];
            assert(views[k as int] == frag@);
            if frag.start < cursor || frag.end < frag.start {
                proof {
                    if frag.start < cursor {
                        assert(views[k - 1].end > views[k as int].start);
                    }
                }
                return Err(Error::new(ErrorKind::InvalidDelta));
            }
            cursor = frag.end;
            k = k + 1;
        }
        Ok(Delta { frags })
    }

    /// The delta that turns the empty buffer into `text`: one fragment
    /// `{0, 0, text}`.
    pub fn new_fulltext(text: &[u8]) -> (d: Delta)
        ensures
            d@ == seq![FragmentView { start: 0, end: 0, content: text@ }],
    {
        let mut frags: Vec<Fragment> = Vec::new();
        frags.push(Fragment { start: 0, end: 0, content: vstd::slice::slice_to_vec(text) });
        assert(fragment_views(frags@) =~= seq![
            FragmentView { start: 0, end: 0, content: text@ },
        ]);
        Delta { frags }
    }

    /// Wraps fragments that are known to be well ordered.
    pub(crate) fn from_ordered(frags: Vec<Fragment>) -> (d: Delta)
        requires
            well_ordered(fragment_views(frags@)),
        ensures
            d@ == fragment_views(frags@),
    {
        Delta { frags }
    }

    /// The fragments, in order.
    pub fn fragments(&self) -> (r: &Vec<Fragment>)
        ensures
            fragment_views(r@) == self@,
    {
        &self.frags
    }
}

/// Applies `delta` to `base`: walks the fragments in order, copying the
/// untouched base bytes before each and then its content, and ends with the
/// rest of the base. Fails unless the fragments fit the base.
pub fn apply(base: &[u8], delta: &Delta) -> (r: Result<Vec<u8>, Error>)
    ensures
        r is Ok <==> fits(delta@, base@.len() as int),
        r matches Ok(out) ==> out@ == apply_spec(base@, delta@),
        r matches Err(e) ==> e == (Error { kind: ErrorKind::InvalidDelta, context: None }),
{
    let ghost views = delta@;
    let mut out: Vec<u8> = Vec::new();
    let mut k: usize = 0;
    let mut cursor: usize = 0;
    while k < delta.frags.len()
        invariant
            k <= delta.frags.len(),
            views == fragment_views(delta.frags@),
            cursor == cursor_after(views, k as int),
            cursor <= base@.len(),
            out@ == patched_prefix(base@, views, k as int),
            forall|i: int| 0 <= i < k ==> 0 <= (#[trigger] views[i]).start <= views[i].end,
            forall|i: int| 0 <= i < k ==> (#[trigger] views[i]).end <= cursor,
            forall|i: int, j: int|
                0 <= i < j < k ==> (#[trigger] views[i]).end <= (#[trigger] views[j]).start,
        decreases delta.frags.len() - k,
    {
        let frag = &delta.frags[k];
        assert(views[k as int] == frag@);
        if frag.start < cursor || frag.end < frag.start || frag.end > base.len() {
            proof {
                if frag.start < cursor {
                    assert(views[k - 1].end > views[k as int].start);
                }
            }
            return Err(Error::new(ErrorKind::InvalidDelta));
        }
        append_bytes(&mut out, vstd::slice::slice_subrange(base, cursor, frag.start));
        append_bytes(&mut out, frag.content.as_slice());
        cursor = frag.end;
        k = k + 1;
    }
    append_bytes(&mut out, vstd::slice::slice_subrange(base, cursor, base.len()));
    Ok(out)
}

/// Appends `src` to `out`.
pub fn append_bytes(out: &mut Vec<u8>, src: &[u8])
    ensures
        final(out)@ == old(out)@ + src@,
{
    out.extend_from_slice(src);
    assert(out@ =~= old(out)@ + src@);
}

} // verus!
