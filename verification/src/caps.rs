//! Capabilities that the server advertises.

use vstd::prelude::*;
use vstd::string::{StringExecFns, StringSliceAdditionalSpecFns};
use vstd::utf8::encode_utf8;
use crate::text::{join, joined, push_char, string_views};

verus! {

/// A byte that percent-encoding leaves as it is: an ASCII letter or digit,
/// `-`, `.`, `_` or `~`.
pub open spec fn unreserved(b: u8) -> bool {
    ||| 0x30 <= b <= 0x39
    ||| 0x41 <= b <= 0x5a
    ||| 0x61 <= b <= 0x7a
    ||| b == 0x2d
    ||| b == 0x2e
    ||| b == 0x5f
    ||| b == 0x7e
}

/// The upper-case hexadecimal digit for a value below 16.
pub open spec fn upper_hex_digit(v: u8) -> char {
    if v < 10 {
        (0x30 + v) as char
    } else {
        (0x37 + v) as char
    }
}

/// A byte percent-encoded: itself where it is unreserved, else `%` and its
/// two upper-case hexadecimal digits.
pub open spec fn percent_encoded_byte(b: u8) -> Seq<char> {
    if unreserved(b) {
        seq![b as char]
    } else {
        seq!['%', upper_hex_digit(b / 16), upper_hex_digit(b % 16)]
    }
}

/// Bytes percent-encoded, one after the other.
pub open spec fn percent_encoded(bytes: Seq<u8>) -> Seq<char>
    decreases bytes.len(),
{
    if bytes.len() == 0 {
        Seq::empty()
    } else {
        percent_encoded(bytes.drop_last()) + percent_encoded_byte(bytes.last())
    }
}

fn is_unreserved(b: u8) -> (r: bool)
    ensures
        r == unreserved(b),
{
    (0x30 <= b && b <= 0x39) || (0x41 <= b && b <= 0x5a) || (0x61 <= b && b <= 0x7a) || b == 0x2d
        || b == 0x2e || b == 0x5f || b == 0x7e
}

fn upper_hex(v: u8) -> (c: char)
    requires
        v < 16,
    ensures
        c == upper_hex_digit(v),
{
    if v < 10 {
        (0x30 + v) as char
    } else {
        (0x37 + v) as char
    }
}

/// Percent-encodes the UTF-8 bytes of `input`.
pub fn percent_encode(input: &str) -> (encoded: String)
    ensures
        encoded@ == percent_encoded(input.spec_bytes()),
{
    let bytes = input.as_bytes();
    let mut encoded = String::new();
    let mut k: usize = 0;
    while k < bytes.len()
        invariant
            k <= bytes@.len(),
            encoded@ == percent_encoded(bytes@.take(k as int)),
        decreases bytes@.len() - k,
    {
        let b = bytes[k];
        let ghost before = encoded@;
        if is_unreserved(b) {
            push_char(&mut encoded, b as char);
        } else {
            push_char(&mut encoded, '%');
            push_char(&mut encoded, upper_hex(b / 16));
            push_char(&mut encoded, upper_hex(b % 16));
        }
        proof {
            assert(bytes@.take(k + 1).drop_last() =~= bytes@.take(k as int));
            assert(encoded@ =~= before + percent_encoded_byte(b));
        }
        k = k + 1;
    }
    assert(bytes@.take(k as int) =~= bytes@);
    encoded
}

/// The wire protocol capabilities: `lookup`, `known` and `getbundle`.
pub fn wireprotocaps() -> (caps: Vec<String>)
    ensures
        caps.len() == 3,
        caps[0]@ == "lookup"@,
        caps[1]@ == "known"@,
        caps[2]@ == "getbundle"@,
{
    let mut caps: Vec<String> = Vec::new();
    caps.push(String::from_str("lookup"));
    caps.push(String::from_str("known"));
    caps.push(String::from_str("getbundle"));
    caps
}

/// A capability of the bundle format with the values it is advertised
/// with.
#[derive(Debug, PartialEq, Eq)]
pub struct Capability {
    pub name: String,
    pub values: Vec<String>,
}

/// A `Capability` as a mathematical value.
pub struct CapabilityView {
    pub name: Seq<char>,
    pub values: Seq<Seq<char>>,
}

impl View for Capability {
    type V = CapabilityView;

    open spec fn view(&self) -> CapabilityView {
        CapabilityView { name: self.name@, values: string_views(self.values@) }
    }
}

/// The views of a list of capabilities, in order.
pub open spec fn capability_views(caps: Seq<Capability>) -> Seq<CapabilityView> {
    Seq::new(caps.len(), |i: int| caps[i]@)
}

/// How one capability is written: its name, and where it has values, `=`
/// and the values with commas between them.
pub open spec fn capability_text(cap: CapabilityView) -> Seq<char> {
    if cap.values.len() > 0 {
        cap.name + seq!['='] + joined(cap.values, seq![','])
    } else {
        cap.name
    }
}

/// How a list of capabilities is written: one on each line.
pub open spec fn capabilities_text(caps: Seq<CapabilityView>) -> Seq<char> {
    joined(Seq::new(caps.len(), |i: int| capability_text(caps[i])), seq!['\n'])
}

/// The capabilities of the bundle format that the server advertises:
/// `HG20`, `listkeys`, and `changegroup` in version `02`.
pub open spec fn bundle2_capabilities() -> Seq<CapabilityView> {
    seq![
        CapabilityView { name: "HG20"@, values: seq![] },
        CapabilityView { name: "listkeys"@, values: seq![] },
        CapabilityView { name: "changegroup"@, values: seq!["02"@] },
    ]
}

/// What the server advertises as its bundle capabilities: their text,
/// percent-encoded.
pub open spec fn bundle2caps_spec() -> Seq<char> {
    percent_encoded(encode_utf8(capabilities_text(bundle2_capabilities())))
}

/// Writes one capability.
pub fn capability_entry(cap: &Capability) -> (text: String)
    ensures
        text@ == capability_text(cap@),
{
    let mut text = cap.name.clone();
    if cap.values.len() > 0 {
        text.append("=");
        let values = join(&cap.values, ",");
        text.append(values.as_str());
        proof {
            reveal_strlit("=");
            reveal_strlit(",");
            assert("="@ =~= seq!['=']);
            assert(","@ =~= seq![',']);
        }
    }
    text
}

/// Writes a list of capabilities, one on each line, and percent-encodes
/// the text.
pub fn encode_capabilities(caps: &Vec<Capability>) -> (encoded: String)
    ensures
        encoded@ == percent_encoded(encode_utf8(capabilities_text(capability_views(caps@)))),
{
    let mut entries: Vec<String> = Vec::new();
    let mut k: usize = 0;
    while k < caps.len()
        invariant
            k <= caps@.len(),
            entries@.len() == k,
            forall|i: int| 0 <= i < k ==> (#[trigger] entries@[i])@ == capability_text(caps@[i]@),
        decreases caps@.len() - k,
    {
        entries.push(capability_entry(&caps[k]));
        k = k + 1;
    }
    let text = join(&entries, "\n");
    proof {
        reveal_strlit("\n");
        assert("\n"@ =~= seq!['\n']);
        assert(string_views(entries@) =~= Seq::new(
            caps@.len(),
            |i: int| capability_text(capability_views(caps@)[i]),
        ));
    }
    percent_encode(text.as_str())
}

/// Percent-encoding works piece by piece.
pub proof fn lemma_percent_encoded_concat(a: Seq<u8>, b: Seq<u8>)
    ensures
        percent_encoded(a + b) == percent_encoded(a) + percent_encoded(b),
    decreases b.len(),
{
    if b.len() == 0 {
        assert(a + b =~= a);
        assert(percent_encoded(a) + percent_encoded(b) =~= percent_encoded(a));
    } else {
        lemma_percent_encoded_concat(a, b.drop_last());
        assert((a + b).drop_last() =~= a + b.drop_last());
        assert(percent_encoded(a) + percent_encoded(b.drop_last()) + percent_encoded_byte(
            b.last(),
        ) =~= percent_encoded(a) + (percent_encoded(b.drop_last()) + percent_encoded_byte(
            b.last(),
        )));
    }
}

/// Unreserved bytes are left as they are.
pub proof fn lemma_percent_encoded_unreserved(bytes: Seq<u8>)
    requires
        forall|i: int| 0 <= i < bytes.len() ==> unreserved(#[trigger] bytes[i]),
    ensures
        percent_encoded(bytes) == Seq::new(bytes.len(), |i: int| bytes[i] as char),
    decreases bytes.len(),
{
    if bytes.len() > 0 {
        let front = bytes.drop_last();
        assert forall|i: int| 0 <= i < front.len() implies unreserved(#[trigger] front[i]) by {
            assert(front[i] == bytes[i]);
        }
        lemma_percent_encoded_unreserved(front);
        assert(unreserved(bytes[bytes.len() - 1]));
        assert(percent_encoded(bytes) =~= Seq::new(bytes.len(), |i: int| bytes[i] as char));
    } else {
        assert(percent_encoded(bytes) =~= Seq::new(bytes.len(), |i: int| bytes[i] as char));
    }
}

/// What the server advertises as its bundle capabilities, letter by
/// letter.
pub proof fn lemma_bundle2caps_text()
    ensures
        bundle2caps_spec() == "HG20%0Alistkeys%0Achangegroup%3D02"@,
{
    reveal_strlit("HG20");
    reveal_strlit("listkeys");
    reveal_strlit("changegroup");
    reveal_strlit("02");
    reveal_strlit("HG20%0Alistkeys%0Achangegroup%3D02");
    let caps = bundle2_capabilities();
    let entries = Seq::new(caps.len(), |i: int| capability_text(caps[i]));
    let sep = seq!['\n'];
    assert(joined(seq!["02"@], seq![',']) == "02"@);
    assert(entries[0] == "HG20"@);
    assert(entries[1] == "listkeys"@);
    assert(entries[2] =~= "changegroup"@ + seq!['='] + "02"@);
    assert(entries.drop_last().drop_last() =~= seq![entries[0]]);
    assert(entries.drop_last().last() == entries[1]);
    assert(joined(entries.drop_last().drop_last(), sep) == entries[0]);
    assert(joined(entries.drop_last(), sep) == entries[0] + sep + entries[1]);
    let text = capabilities_text(caps);
    assert(text == entries[0] + sep + entries[1] + sep + entries[2]);
    let first = "HG20"@ + seq!['\n'];
    let second = "listkeys"@ + seq!['\n'];
    let third = "changegroup"@ + seq!['='];
    let fourth = "02"@;
    assert(text =~= first + second + third + fourth);
    assert(vstd::utf8::is_ascii_chars(text));
    vstd::utf8::is_ascii_chars_encode_utf8(text);
    let bytes = encode_utf8(text);
    let a = seq![0x48u8, 0x47u8, 0x32u8, 0x30u8];
    let nl = seq![0x0au8];
    let b = seq![0x6cu8, 0x69u8, 0x73u8, 0x74u8, 0x6bu8, 0x65u8, 0x79u8, 0x73u8];
    let c = seq![
        0x63u8,
        0x68u8,
        0x61u8,
        0x6eu8,
        0x67u8,
        0x65u8,
        0x67u8,
        0x72u8,
        0x6fu8,
        0x75u8,
        0x70u8,
    ];
    let eq = seq![0x3du8];
    let d = seq![0x30u8, 0x32u8];
    assert(bytes =~= a + nl + b + nl + c + eq + d) by {
        assert(bytes.len() == 28);
        assert forall|i: int| 0 <= i < 28 implies bytes[i] == (a + nl + b + nl + c + eq + d)[i] by {
            assert(bytes[i] == text[i] as u8);
        }
    }
    lemma_percent_encoded_concat(a + nl + b + nl + c + eq, d);
    lemma_percent_encoded_concat(a + nl + b + nl + c, eq);
    lemma_percent_encoded_concat(a + nl + b + nl, c);
    lemma_percent_encoded_concat(a + nl + b, nl);
    lemma_percent_encoded_concat(a + nl, b);
    lemma_percent_encoded_concat(a, nl);
    lemma_percent_encoded_unreserved(a);
    lemma_percent_encoded_unreserved(b);
    lemma_percent_encoded_unreserved(c);
    lemma_percent_encoded_unreserved(d);
    assert(percent_encoded(nl) =~= seq!['%', '0', 'A']) by {
        assert(nl.drop_last() =~= Seq::<u8>::empty());
        assert(percent_encoded(nl) == percent_encoded(nl.drop_last()) + percent_encoded_byte(
            0x0au8,
        ));
    }
    assert(percent_encoded(eq) =~= seq!['%', '3', 'D']) by {
        assert(eq.drop_last() =~= Seq::<u8>::empty());
        assert(percent_encoded(eq) == percent_encoded(eq.drop_last()) + percent_encoded_byte(
            0x3du8,
        ));
    }
    assert(bundle2caps_spec() =~= "HG20%0Alistkeys%0Achangegroup%3D02"@);
}

/// The bundle capabilities that the server advertises, percent-encoded.
pub fn bundle2caps() -> (encoded: String)
    ensures
        encoded@ == bundle2caps_spec(),
        encoded@ == "HG20%0Alistkeys%0Achangegroup%3D02"@,
{
    proof {
        lemma_bundle2caps_text();
    }
    let mut caps: Vec<Capability> = Vec::new();
    caps.push(Capability { name: String::from_str("HG20"), values: Vec::new() });
    caps.push(Capability { name: String::from_str("listkeys"), values: Vec::new() });
    let mut versions: Vec<String> = Vec::new();
    versions.push(String::from_str("02"));
    caps.push(Capability { name: String::from_str("changegroup"), values: versions });
    proof {
        assert(string_views(caps@[0].values@) =~= seq![]);
        assert(string_views(caps@[1].values@) =~= seq![]);
        assert(string_views(caps@[2].values@) =~= seq!["02"@]);
        assert(capability_views(caps@) =~= bundle2_capabilities());
    }
    encode_capabilities(&caps)
}

/// What `hello` answers: under the one key `capabilities`, the wire
/// protocol capabilities and then `bundle2=` with the bundle capabilities.
pub fn hello() -> (answer: Vec<(String, Vec<String>)>)
    ensures
        answer@.len() == 1,
        answer@[0].0@ == "capabilities"@,
        answer@[0].1@.len() == 4,
        answer@[0].1@[0]@ == "lookup"@,
        answer@[0].1@[1]@ == "known"@,
        answer@[0].1@[2]@ == "getbundle"@,
        answer@[0].1@[3]@ == "bundle2="@ + bundle2caps_spec(),
        answer@[0].1@[3]@ == "bundle2="@ + "HG20%0Alistkeys%0Achangegroup%3D02"@,
{
    let mut caps = wireprotocaps();
    let mut bundle2 = String::from_str("bundle2=");
    let encoded = bundle2caps();
    bundle2.append(encoded.as_str());
    caps.push(bundle2);
    let mut answer: Vec<(String, Vec<String>)> = Vec::new();
    answer.push((String::from_str("capabilities"), caps));
    answer
}

} // verus!
