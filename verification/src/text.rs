//! Building and comparing strings.

use vstd::prelude::*;
use vstd::string::{StringExecFns, StringSliceAdditionalSpecFns};
use crate::blob::slices_equal;

verus! {

/// `String::push` appends one character to the string.
#[verifier::external_body]
pub(crate) fn push_char(text: &mut String, c: char)
    ensures
        final(text)@ == old(text)@.push(c),
{
    text.push(c)
}

/// The views of a list of strings, in order.
pub open spec fn string_views(strings: Seq<String>) -> Seq<Seq<char>> {
    Seq::new(strings.len(), |i: int| strings[i]@)
}

/// The parts one after the other, with `sep` between each two.
pub open spec fn joined(parts: Seq<Seq<char>>, sep: Seq<char>) -> Seq<char>
    decreases parts.len(),
{
    if parts.len() == 0 {
        Seq::empty()
    } else if parts.len() == 1 {
        parts[0]
    } else {
        joined(parts.drop_last(), sep) + sep + parts.last()
    }
}

/// Joins `parts` with `sep` between each two.
pub fn join(parts: &Vec<String>, sep: &str) -> (text: String)
    ensures
        text@ == joined(string_views(parts@), sep@),
{
    let mut text = String::new();
    let mut k: usize = 0;
    while k < parts.len()
        invariant
            k <= parts@.len(),
            text@ == joined(string_views(parts@).take(k as int), sep@),
        decreases parts@.len() - k,
    {
        let ghost views = string_views(parts@);
        proof {
            assert(views.take(k + 1).drop_last() =~= views.take(k as int));
            assert(views.take(k + 1).last() == parts@[k as int]@);
        }
        if k > 0 {
            text.append(sep);
        }
        text.append(parts[k].as_str());
        proof {
            if k == 0 {
                assert(text@ =~= parts@[0]@);
            }
        }
        k = k + 1;
    }
    assert(string_views(parts@).take(k as int) =~= string_views(parts@));
    text
}

/// Tells whether two strings are the same.
pub fn str_equal(a: &str, b: &str) -> (same: bool)
    ensures
        same == (a@ == b@),
{
    proof {
        vstd::utf8::encode_utf8_decode_utf8(a@);
        vstd::utf8::encode_utf8_decode_utf8(b@);
    }
    slices_equal(a.as_bytes(), b.as_bytes())
}

/// Bytes read as characters, one for one.
pub open spec fn ascii_chars(bytes: Seq<u8>) -> Seq<char> {
    Seq::new(bytes.len(), |i: int| bytes[i] as char)
}

/// Appends ASCII bytes to a string as characters.
pub fn push_ascii(text: &mut String, bytes: &[u8])
    ensures
        final(text)@ == old(text)@ + ascii_chars(bytes@),
{
    let mut k: usize = 0;
    assert(old(text)@ + ascii_chars(bytes@.take(0)) =~= old(text)@);
    while k < bytes.len()
        invariant
            k <= bytes@.len(),
            text@ == old(text)@ + ascii_chars(bytes@.take(k as int)),
        decreases bytes@.len() - k,
    {
        push_char(text, bytes[k] as char);
        assert(text@ =~= old(text)@ + ascii_chars(bytes@.take(k + 1)));
        k = k + 1;
    }
    assert(bytes@.take(k as int) =~= bytes@);
}

} // verus!
