use std::sync::Arc;

use mononoke::between::{sample_exponential, ParentStream, Sampler};
use mononoke::bundle2::{
    changegroup_part, encode_bundle, listkey_part, listkeys_of, KeyLookup, ListKey, Part,
};
use mononoke::caps::{
    bundle2caps, capability_entry, encode_capabilities, hello, percent_encode, wireprotocaps,
    Capability,
};
use mononoke::changeset::Parents;
use mononoke::client::{asks_for_bookmarks, unique_nodes, GetbundleArgs, RepoClient};
use mononoke::errors::{DeltaContext, Error, ErrorKind};
use mononoke::nodehash::NodeHash;
use mononoke::repo::{Bookmark, Repo};
use mononoke::text::{join, push_ascii, str_equal};

fn numbered(n: u32) -> NodeHash {
    let mut bytes = [0u8; 20];
    bytes[0] = 0xc5;
    bytes[16] = (n >> 24) as u8;
    bytes[17] = (n >> 16) as u8;
    bytes[18] = (n >> 8) as u8;
    bytes[19] = n as u8;
    NodeHash { bytes }
}

fn linear_repo(len: u32) -> Repo {
    let mut repo = Repo::new("linear");
    for n in 0..len {
        let parents = if n == 0 {
            Parents::Zero
        } else {
            Parents::One(numbered(n - 1))
        };
        assert!(repo.add_changeset(numbered(n), parents));
    }
    repo
}

fn percent_decode(text: &str) -> String {
    let bytes = text.as_bytes();
    let mut out = Vec::new();
    let mut i = 0;
    while i < bytes.len() {
        if bytes[i] == b'%' {
            let hex = std::str::from_utf8(&bytes[i + 1..i + 3]).unwrap();
            out.push(u8::from_str_radix(hex, 16).unwrap());
            i += 3;
        } else {
            out.push(bytes[i]);
            i += 1;
        }
    }
    String::from_utf8(out).unwrap()
}

#[test]
fn wireprotocaps_are_the_three() {
    assert_eq!(wireprotocaps(), vec!["lookup", "known", "getbundle"]);
}

#[test]
fn bundle2caps_exact() {
    assert_eq!(bundle2caps(), "HG20%0Alistkeys%0Achangegroup%3D02");
}

#[test]
fn hello_response_contents() {
    let answer = hello();
    assert_eq!(answer.len(), 1);
    assert_eq!(answer[0].0, "capabilities");
    let caps = &answer[0].1;
    assert_eq!(caps.len(), 4);
    assert_eq!(&caps[..3], &["lookup", "known", "getbundle"]);
    assert!(caps[3].starts_with("bundle2="));
    let decoded = percent_decode(&caps[3]["bundle2=".len()..]);
    let tokens: Vec<&str> = decoded.split('\n').collect();
    assert_eq!(tokens.iter().filter(|t| **t == "HG20").count(), 1);
    assert_eq!(tokens.iter().filter(|t| **t == "listkeys").count(), 1);
    assert_eq!(tokens.iter().filter(|t| **t == "changegroup=02").count(), 1);
    assert_eq!(tokens.len(), 3);
    let client = RepoClient::new(Arc::new(Repo::new("r")));
    assert_eq!(client.hello(), answer);
}

#[test]
fn percent_encode_reserved_and_unreserved() {
    assert_eq!(percent_encode(""), "");
    assert_eq!(percent_encode("AZaz09-._~"), "AZaz09-._~");
    assert_eq!(percent_encode("a=b,c\nd"), "a%3Db%2Cc%0Ad");
    assert_eq!(percent_encode(" /%"), "%20%2F%25");
    assert_eq!(percent_encode("\u{e9}"), "%C3%A9");
    assert_eq!(percent_encode("\u{7f}\u{0}"), "%7F%00");
}

#[test]
fn capabilities_are_joined() {
    let plain = Capability { name: "HG20".to_string(), values: vec![] };
    assert_eq!(capability_entry(&plain), "HG20");
    let versions = Capability {
        name: "changegroup".to_string(),
        values: vec!["01".to_string(), "02".to_string()],
    };
    assert_eq!(capability_entry(&versions), "changegroup=01,02");
    assert_eq!(
        encode_capabilities(&vec![plain, versions]),
        "HG20%0Achangegroup%3D01%2C02"
    );
    assert_eq!(encode_capabilities(&vec![]), "");
    assert_eq!(join(&vec![], ","), "");
    assert_eq!(join(&vec!["a".to_string()], ","), "a");
    assert_eq!(join(&vec!["a".to_string(), "b".to_string(), "".to_string()], ", "), "a, b, ");
}

#[test]
fn strings_compare_and_grow() {
    assert!(str_equal("files", "files"));
    assert!(!str_equal("files", "file"));
    assert!(!str_equal("", "x"));
    let mut text = String::from("ab");
    push_ascii(&mut text, b"cd~");
    assert_eq!(text, "abcd~");
}

#[test]
fn between_sampling() {
    let repo = linear_repo(40);
    let client = RepoClient::new(Arc::new(repo));
    let top = numbered(39);
    let bottom = numbered(7);
    let chain = client.ancestors(top, bottom).unwrap();
    assert_eq!(chain.len(), 32);
    assert_eq!(chain[0], top);
    assert_eq!(chain[31], numbered(8));
    let answer = client.between(&vec![(top, bottom)]).unwrap();
    assert_eq!(
        answer,
        vec![vec![chain[1], chain[2], chain[4], chain[8], chain[16]]]
    );
    assert_eq!(
        answer[0],
        vec![numbered(38), numbered(37), numbered(35), numbered(31), numbered(23)]
    );
}

#[test]
fn between_pairs_in_order() {
    let client = RepoClient::new(Arc::new(linear_repo(10)));
    let answer = client
        .between(&vec![
            (numbered(9), numbered(9)),
            (numbered(9), numbered(8)),
            (numbered(9), numbered(7)),
            (numbered(3), NodeHash::null()),
            (NodeHash::null(), numbered(3)),
            (numbered(2), numbered(5)),
        ])
        .unwrap();
    assert_eq!(
        answer,
        vec![
            vec![],
            vec![],
            vec![numbered(8)],
            vec![numbered(2), numbered(1)],
            vec![],
            vec![numbered(1), numbered(0)],
        ]
    );
    assert_eq!(client.between(&vec![]), Ok(vec![]));
}

#[test]
fn between_unknown_changeset_fails() {
    let client = RepoClient::new(Arc::new(linear_repo(4)));
    let storage = Error { kind: ErrorKind::StorageIO, context: None };
    assert_eq!(client.ancestors(numbered(77), numbered(0)), Err(storage));
    assert_eq!(
        client.between(&vec![(numbered(3), numbered(0)), (numbered(77), numbered(0))]),
        Err(storage)
    );
    assert_eq!(client.ancestors(numbered(77), numbered(77)), Ok(vec![]));
}

#[test]
fn between_follows_first_parent() {
    let mut repo = linear_repo(3);
    let side = numbered(100);
    assert!(repo.add_changeset(side, Parents::One(numbered(0))));
    let merge = numbered(101);
    assert!(repo.add_changeset(merge, Parents::Two(side, numbered(2))));
    let client = RepoClient::new(Arc::new(repo));
    assert_eq!(
        client.ancestors(merge, NodeHash::null()),
        Ok(vec![merge, side, numbered(0)])
    );
}

#[test]
fn parent_stream_steps() {
    let mut walk = ParentStream::new(numbered(2), numbered(0));
    assert_eq!(walk.pending(), Some(numbered(2)));
    assert_eq!(walk.advance(&Parents::Two(numbered(1), numbered(9))), Some(numbered(2)));
    assert_eq!(walk.pending(), Some(numbered(1)));
    assert_eq!(walk.advance(&Parents::One(numbered(0))), Some(numbered(1)));
    assert_eq!(walk.pending(), None);
    assert_eq!(walk.advance(&Parents::One(numbered(5))), None);
    assert_eq!(walk, ParentStream { n: numbered(0), bottom: numbered(0) });
    let mut root = ParentStream::new(numbered(1), numbered(7));
    assert_eq!(root.advance(&Parents::Zero), Some(numbered(1)));
    assert_eq!(root.n, NodeHash::null());
    assert_eq!(root.pending(), None);
}

#[test]
fn sampling_keeps_powers_of_two() {
    let chain: Vec<NodeHash> = (0..33).map(numbered).collect();
    assert_eq!(
        sample_exponential(&chain),
        vec![numbered(1), numbered(2), numbered(4), numbered(8), numbered(16), numbered(32)]
    );
    assert_eq!(sample_exponential(&chain[..32].to_vec()).len(), 5);
    assert_eq!(sample_exponential(&vec![]), vec![]);
    assert_eq!(sample_exponential(&vec![numbered(0)]), vec![]);
    assert_eq!(sample_exponential(&vec![numbered(0), numbered(1)]), vec![numbered(1)]);
    let mut sampler = Sampler::new();
    let kept: Vec<usize> = (0..70).filter(|_| sampler.keep()).collect();
    assert_eq!(kept, vec![1, 2, 4, 8, 16, 32, 64]);
}

#[test]
fn known_preserves_order() {
    let client = RepoClient::new(Arc::new(linear_repo(3)));
    assert_eq!(
        client.known(&vec![numbered(2), numbered(9), numbered(0), NodeHash::null()]),
        vec![true, false, true, false]
    );
    assert_eq!(client.known(&vec![]), Vec::<bool>::new());
}

#[test]
fn heads_are_a_set() {
    let mut repo = linear_repo(3);
    repo.add_head(numbered(2));
    repo.add_head(numbered(1));
    repo.add_head(numbered(2));
    assert_eq!(repo.get_heads(), &vec![numbered(2), numbered(1), numbered(2)]);
    let client = RepoClient::new(Arc::new(repo));
    assert_eq!(client.heads(), vec![numbered(2), numbered(1)]);
    assert_eq!(unique_nodes(&vec![]), vec![]);
    client.changegroup(&vec![numbered(0)]);
    client.unbundle(&vec![numbered(2)]);
}

#[test]
fn repo_keeps_changesets_topological() {
    let mut repo = Repo::new("/srv/repo");
    assert_eq!(repo.describe(), "Repo(/srv/repo)");
    assert!(!repo.add_changeset(NodeHash::null(), Parents::Zero));
    assert!(!repo.add_changeset(numbered(1), Parents::One(numbered(0))));
    assert!(repo.add_changeset(numbered(0), Parents::Zero));
    assert!(!repo.add_changeset(numbered(0), Parents::Zero));
    assert!(repo.add_changeset(numbered(1), Parents::One(numbered(0))));
    assert!(!repo.add_changeset(numbered(2), Parents::Two(numbered(1), numbered(5))));
    assert!(repo.add_changeset(numbered(2), Parents::Two(numbered(1), numbered(0))));
    assert_eq!(repo.changeset_count(), 3);
    assert!(repo.changeset_exists(&numbered(2)));
    assert!(!repo.changeset_exists(&numbered(3)));
    assert_eq!(
        repo.get_changeset_by_nodeid(&numbered(2)),
        Some(Parents::Two(numbered(1), numbered(0)))
    );
    assert_eq!(repo.get_changeset_by_nodeid(&numbered(3)), None);
    assert_eq!(repo.changeset_position(&numbered(1)), Some(1));
    assert_eq!(repo.changeset_position(&numbered(9)), None);
    assert_eq!(repo.changelog_entry(2).node, numbered(2));
}

#[test]
fn parents_from_slots() {
    let a = numbered(1);
    let b = numbered(2);
    let null = NodeHash::null();
    assert_eq!(Parents::from_slots(null, null), Parents::Zero);
    assert_eq!(Parents::from_slots(a, null), Parents::One(a));
    assert_eq!(Parents::from_slots(null, b), Parents::One(b));
    assert_eq!(Parents::from_slots(a, b), Parents::Two(a, b));
    assert_eq!(Parents::Zero.first(), null);
    assert_eq!(Parents::One(a).first(), a);
    assert_eq!(Parents::Two(a, b).first(), a);
    assert_eq!(Parents::Two(a, b).second(), b);
    assert_eq!(Parents::One(a).second(), null);
    assert_eq!(Parents::Zero.second(), null);
}

#[test]
fn node_hex_roundtrip() {
    let node = NodeHash {
        bytes: [
            0x00, 0x01, 0x0a, 0x10, 0x7f, 0x80, 0xab, 0xcd, 0xef, 0xff, 0x12, 0x34, 0x56, 0x78,
            0x9a, 0xbc, 0xde, 0xf0, 0x0f, 0x99,
        ],
    };
    let hex = node.to_hex();
    assert_eq!(hex, b"00010a107f80abcdefff123456789abcdef00f99".to_vec());
    assert_eq!(NodeHash::from_hex(&hex), Some(node));
    assert_eq!(
        NodeHash::from_hex(b"00010A107F80ABCDEFFF123456789ABCDEF00F99"),
        Some(node)
    );
    assert_eq!(NodeHash::from_hex(&hex[..39]), None);
    assert_eq!(NodeHash::from_hex(b"g0010a107f80abcdefff123456789abcdef00f99"), None);
    assert_eq!(NodeHash::from_hex(b"00010a107f80abcdefff123456789abcdef00f9/"), None);
    assert_eq!(NodeHash::from_bytes(&node.bytes), Some(node));
    assert_eq!(NodeHash::from_bytes(&node.bytes[..19]), None);
    assert_eq!(NodeHash::from_bytes(&[0u8; 21]), None);
    assert_eq!(NodeHash::null().to_hex(), vec![b'0'; 40]);
}

#[test]
fn error_context_in_words() {
    let context = DeltaContext {
        base: NodeHash { bytes: [0x11; 20] },
        node: NodeHash { bytes: [0xa5; 20] },
    };
    assert_eq!(
        context.message(),
        "While looking for base 1111111111111111111111111111111111111111 \
         to apply on delta a5a5a5a5a5a5a5a5a5a5a5a5a5a5a5a5a5a5a5a5"
    );
    assert_eq!(
        Error::while_applying(ErrorKind::MissingBase, context.base, context.node),
        Error { kind: ErrorKind::MissingBase, context: Some(context) }
    );
    assert_eq!(
        Error::new(ErrorKind::Internal),
        Error { kind: ErrorKind::Internal, context: None }
    );
}

#[test]
fn empty_bundle_framing() {
    assert_eq!(
        encode_bundle(&vec![]),
        Ok(b"HG20\x00\x00\x00\x00\x00\x00\x00\x00".to_vec())
    );
}

#[test]
fn part_framing() {
    let mut part = Part::new(b"check:heads", false).unwrap();
    part.add_mparam(b"k", b"value").unwrap();
    part.add_aparam(b"hint", b"").unwrap();
    part.set_payload(b"payload".to_vec());
    let mut expected = Vec::new();
    expected.extend_from_slice(b"\x0bcheck:heads");
    expected.extend_from_slice(&[0, 0, 1, 2]);
    expected.extend_from_slice(&[1, 1]);
    expected.extend_from_slice(&[1, 5, 4, 0]);
    expected.extend_from_slice(b"kvaluehint");
    assert_eq!(part.header(0x0102), expected);
    let mut out = vec![0xffu8];
    part.encode_into(&mut out, 0x0102);
    let mut framed = vec![0xffu8];
    framed.extend_from_slice(&[0, 0, 0, expected.len() as u8]);
    framed.extend_from_slice(&expected);
    framed.extend_from_slice(&[0, 0, 0, 7]);
    framed.extend_from_slice(b"payload");
    framed.extend_from_slice(&[0, 0, 0, 0]);
    assert_eq!(out, framed);
    let upper = Part::new(b"Check:heads", true).unwrap();
    assert_eq!(&upper.header(0)[..12], b"\x0bCHECK:HEADS");
    let lower = Part::new(b"Check:HEADS", false).unwrap();
    assert_eq!(&lower.header(0)[..12], b"\x0bcheck:heads");
}

#[test]
fn part_limits() {
    let invalid = Error { kind: ErrorKind::ProtocolViolation, context: None };
    assert_eq!(Part::new(b"", true), Err(invalid));
    assert_eq!(Part::new(&[b'a'; 256], true), Err(invalid));
    assert!(Part::new(&[b'a'; 255], true).is_ok());
    let mut part = Part::new(b"p", true).unwrap();
    assert_eq!(part.add_mparam(b"", b"v"), Err(invalid));
    assert_eq!(part.add_mparam(&[b'k'; 256], b"v"), Err(invalid));
    assert_eq!(part.add_aparam(b"k", &[b'v'; 256]), Err(invalid));
    assert_eq!(part, Part::new(b"p", true).unwrap());
    assert_eq!(part.add_mparam(&[b'k'; 255], &[b'v'; 255]), Ok(()));
    for _ in 1..255 {
        assert_eq!(part.add_mparam(b"k", b""), Ok(()));
    }
    assert_eq!(part.add_mparam(b"k", b""), Err(invalid));
    assert_eq!(part.add_aparam(b"k", b""), Ok(()));
    assert_eq!(listkey_part(&[b'n'; 256], &vec![]), Err(invalid));
}

#[test]
fn bundle_numbers_parts() {
    let first = changegroup_part(b"cg".to_vec());
    let second = Part::new(b"x", false).unwrap();
    let bytes = encode_bundle(&vec![first, second]).unwrap();
    let mut expected = b"HG20\x00\x00\x00\x00".to_vec();
    expected.extend_from_slice(&[0, 0, 0, 29]);
    expected.extend_from_slice(b"\x0bCHANGEGROUP\x00\x00\x00\x00\x01\x00\x07\x02version02");
    expected.extend_from_slice(b"\x00\x00\x00\x02cg\x00\x00\x00\x00");
    expected.extend_from_slice(&[0, 0, 0, 8]);
    expected.extend_from_slice(b"\x01x\x00\x00\x00\x01\x00\x00");
    expected.extend_from_slice(&[0, 0, 0, 0]);
    expected.extend_from_slice(&[0, 0, 0, 0]);
    assert_eq!(bytes, expected);
}

#[test]
fn listkeys_drop_missing_names() {
    let lookups = vec![
        KeyLookup { name: b"master".to_vec(), node: Some(NodeHash { bytes: [0x12; 20] }) },
        KeyLookup { name: b"gone".to_vec(), node: None },
        KeyLookup { name: b"stable".to_vec(), node: Some(NodeHash { bytes: [0xab; 20] }) },
    ];
    let items = listkeys_of(&lookups);
    assert_eq!(
        items,
        vec![
            ListKey { key: b"master".to_vec(), value: vec![b'1', b'2'].repeat(20) },
            ListKey { key: b"stable".to_vec(), value: vec![b'a', b'b'].repeat(20) },
        ]
    );
    assert_eq!(listkeys_of(&vec![]), vec![]);
}

#[test]
fn getbundle_lists_bookmarks() {
    let mut repo = linear_repo(2);
    repo.add_bookmark(b"master".to_vec(), NodeHash { bytes: [0x12; 20] });
    assert_eq!(
        repo.get_bookmarks(),
        &vec![Bookmark { name: b"master".to_vec(), node: NodeHash { bytes: [0x12; 20] } }]
    );
    let client = RepoClient::new(Arc::new(repo));
    let mut args = GetbundleArgs {
        heads: vec![],
        common: vec![],
        bundlecaps: vec![],
        listkeys: vec![b"phases".to_vec()],
    };
    assert!(!asks_for_bookmarks(&args.listkeys));
    assert_eq!(
        client.getbundle(&args),
        Ok(b"HG20\x00\x00\x00\x00\x00\x00\x00\x00".to_vec())
    );
    args.listkeys.push(b"bookmarks".to_vec());
    assert!(asks_for_bookmarks(&args.listkeys));
    let mut expected = b"HG20\x00\x00\x00\x00".to_vec();
    expected.extend_from_slice(&[0, 0, 0, 35]);
    expected.extend_from_slice(b"\x08LISTKEYS\x00\x00\x00\x00\x01\x00\x09\x09namespacebookmarks");
    expected.extend_from_slice(&[0, 0, 0, 48]);
    expected.extend_from_slice(b"master\t1212121212121212121212121212121212121212\n");
    expected.extend_from_slice(&[0, 0, 0, 0]);
    expected.extend_from_slice(&[0, 0, 0, 0]);
    assert_eq!(client.getbundle(&args), Ok(expected));
}
