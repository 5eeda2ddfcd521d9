//! Content identifiers.

use vstd::prelude::*;
use vstd::std_specs::cmp::PartialEqSpecImpl;

verus! {

/// A 20-byte content identifier.
#[derive(Clone, Copy, Debug, Hash)]
pub struct NodeHash {
    pub bytes: [u8; 20],
}

impl PartialEq for NodeHash {
    fn eq(&self, other: &NodeHash) -> (r: bool) {
        let mut i: usize = 0;
        while i < 20
            invariant
                i <= 20,
                forall|j: int| 0 <= j < i ==> self.bytes[j] == other.bytes[j],
            decreases 20 - i,
        {
            if self.bytes[i] != other.bytes[i] {
                return false;
            }
            i = i + 1;
        }
        assert(self.bytes =~= other.bytes);
        true
    }
}

impl Eq for NodeHash {}

impl PartialEqSpecImpl for NodeHash {
    open spec fn obeys_eq_spec() -> bool {
        true
    }

    open spec fn eq_spec(&self, other: &NodeHash) -> bool {
        *self == *other
    }
}

/// The null node, twenty zero bytes, which stands for "absent".
pub open spec fn null_hash() -> NodeHash {
    NodeHash { bytes: vstd::array::spec_array_fill_for_copy_type::<u8, 20>(0u8) }
}

/// The null node is the only node whose bytes are all zero.
pub proof fn lemma_null_hash(n: NodeHash)
    ensures
        n.is_null() <==> n == null_hash(),
{
    if n.is_null() {
        assert(n.bytes =~= null_hash().bytes);
    }
}

impl NodeHash {
    /// Every byte is zero.
    pub open spec fn is_null(self) -> bool {
        forall|i: int| 0 <= i < 20 ==> self.bytes[i] == 0u8
    }

    /// The null node.
    pub fn null() -> (r: NodeHash)
        ensures
            r == null_hash(),
            r.is_null(),
    {
        NodeHash { bytes: [0u8; 20] }
    }

    /// The node, unless it is the null node.
    pub fn into_option(self) -> (r: Option<NodeHash>)
        ensures
            r == if self.is_null() { None } else { Some(self) },
    {
        let null = NodeHash::null();
        proof {
            lemma_null_hash(self);
        }
        if self == null {
            None
        } else {
            Some(self)
        }
    }
}

/// The lower-case hexadecimal digit, in ASCII, for a value below 16.
pub open spec fn hex_digit(v: u8) -> u8 {
    if v < 10 {
        (0x30 + v) as u8
    } else {
        (0x57 + v) as u8
    }
}

/// The value of a hexadecimal digit given in ASCII, in either case.
pub open spec fn hex_value(c: u8) -> Option<u8> {
    if 0x30 <= c <= 0x39 {
        Some((c - 0x30) as u8)
    } else if 0x61 <= c <= 0x66 {
        Some((c - 0x57) as u8)
    } else if 0x41 <= c <= 0x46 {
        Some((c - 0x37) as u8)
    } else {
        None
    }
}

/// Bytes in hexadecimal: two lower-case digits for each, the high one
/// first.
pub open spec fn hex_spec(bytes: Seq<u8>) -> Seq<u8> {
    Seq::new(
        2 * bytes.len(),
        |i: int|
            if i % 2 == 0 {
                hex_digit(bytes[i / 2] / 16)
            } else {
                hex_digit(bytes[i / 2] % 16)
            },
    )
}

/// `text` is forty hexadecimal digits.
pub open spec fn is_hex_node(text: Seq<u8>) -> bool {
    text.len() == 40 && forall|i: int| 0 <= i < 40 ==> hex_value(#[trigger] text[i]) is Some
}

/// The byte that two hexadecimal digits stand for.
pub open spec fn hex_byte(high: u8, low: u8) -> u8 {
    (hex_value(high).unwrap() * 16 + hex_value(low).unwrap()) as u8
}

fn digit_of(v: u8) -> (c: u8)
    requires
        v < 16,
    ensures
        c == hex_digit(v),
        hex_value(c) == Some(v),
{
    if v < 10 {
        0x30 + v
    } else {
        0x57 + v
    }
}

fn value_of(c: u8) -> (v: Option<u8>)
    ensures
        v == hex_value(c),
        v matches Some(x) ==> x < 16,
{
    if 0x30 <= c && c <= 0x39 {
        Some(c - 0x30)
    } else if 0x61 <= c && c <= 0x66 {
        Some(c - 0x57)
    } else if 0x41 <= c && c <= 0x46 {
        Some(c - 0x37)
    } else {
        None
    }
}

impl NodeHash {
    /// The node with the given twenty bytes; `None` for any other number of
    /// bytes.
    pub fn from_bytes(bytes: &[u8]) -> (r: Option<NodeHash>)
        ensures
            r is Some <==> bytes@.len() == 20,
            r matches Some(n) ==> n.bytes@ == bytes@,
    {
        if bytes.len() != 20 {
            return None;
        }
        let mut node = NodeHash::null();
        let mut k: usize = 0;
        while k < 20
            invariant
                k <= 20,
                bytes@.len() == 20,
                forall|i: int| 0 <= i < k ==> node.bytes[i] == bytes@[i],
            decreases 20 - k,
        {
            node.bytes[k] = bytes[k];
            k = k + 1;
        }
        assert(node.bytes@ =~= bytes@);
        Some(node)
    }

    /// The node in hexadecimal: forty lower-case digits in ASCII.
    pub fn to_hex(&self) -> (hex: Vec<u8>)
        ensures
            hex@ == hex_spec(self.bytes@),
            is_hex_node(hex@),
    {
        let mut hex: Vec<u8> = Vec::new();
        let mut k: usize = 0;
        while k < 20
            invariant
                k <= 20,
                hex@.len() == 2 * k,
                forall|i: int| 0 <= i < 2 * k ==> hex@[i] == hex_spec(self.bytes@)[i],
                forall|i: int| 0 <= i < 2 * k ==> hex_value(#[trigger] hex@[i]) is Some,
            decreases 20 - k,
        {
            let b = self.bytes[k];
            hex.push(digit_of(b / 16));
            hex.push(digit_of(b % 16));
            k = k + 1;
        }
        assert(hex@ =~= hex_spec(self.bytes@));
        hex
    }

    /// Reads a node from forty hexadecimal digits, in either case; `None`
    /// for anything else.
    pub fn from_hex(text: &[u8]) -> (r: Option<NodeHash>)
        ensures
            r is Some <==> is_hex_node(text@),
            r matches Some(n) ==> forall|i: int|
                0 <= i < 20 ==> #[trigger] n.bytes[i] == hex_byte(text@[2 * i], text@[2 * i + 1]),
    {
        if text.len() != 40 {
            return None;
        }
        let mut node = NodeHash::null();
        let mut k: usize = 0;
        while k < 20
            invariant
                k <= 20,
                text@.len() == 40,
                forall|i: int| 0 <= i < 2 * k ==> hex_value(#[trigger] text@[i]) is Some,
                forall|i: int|
                    0 <= i < k ==> #[trigger] node.bytes[i] == hex_byte(
                        text@[2 * i],
                        text@[2 * i + 1],
                    ),
            decreases 20 - k,
        {
            let high = match value_of(text[2 * k]) {
                Some(v) => v,
                None => {
                    return None;
                },
            };
            let low = match value_of(text[2 * k + 1]) {
                Some(v) => v,
                None => {
                    return None;
                },
            };
            node.bytes[k] = high * 16 + low;
            k = k + 1;
        }
        Some(node)
    }
}

/// A node written in hexadecimal reads back as the same node: the text is
/// forty digits, and each two of them stand for the byte they were written
/// for.
pub proof fn lemma_hex_roundtrip(n: NodeHash)
    ensures
        is_hex_node(hex_spec(n.bytes@)),
        forall|i: int|
            0 <= i < 20 ==> n.bytes[i] == hex_byte(
                #[trigger] hex_spec(n.bytes@)[2 * i],
                hex_spec(n.bytes@)[2 * i + 1],
            ),
{
    let text = hex_spec(n.bytes@);
    assert forall|i: int| 0 <= i < 20 implies n.bytes[i] == hex_byte(
        #[trigger] text[2 * i],
        text[2 * i + 1],
    ) by {
        let b = n.bytes[i];
        assert(text[2 * i] == hex_digit(b / 16));
        assert(text[2 * i + 1] == hex_digit(b % 16));
    }
    assert forall|i: int| 0 <= i < 40 implies hex_value(#[trigger] text[i]) is Some by {
        let b = n.bytes[i / 2];
        assert(text[i] == hex_digit(b / 16) || text[i] == hex_digit(b % 16));
    }
}

} // verus!
