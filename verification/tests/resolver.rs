use bytes::Bytes;
use mononoke::cache::{BaseLookup, DeltaCache};
use mononoke::delta::{apply, Delta, Fragment};
use mononoke::diff::compute_delta;
use mononoke::errors::{DeltaContext, Error, ErrorKind};
use mononoke::filelog::{Filelog, FilelogDeltaed};
use mononoke::nodehash::NodeHash;
use mononoke::path::{MPath, RepoPath};
use mononoke::repo::Repo;
use mononoke::resolver::{convert_to_revlog_filelog, FilelogResolver};
use mononoke::roundtrip::{filelog_to_delta_against, filelog_to_deltaed};

fn hash(byte: u8) -> NodeHash {
    NodeHash { bytes: [byte; 20] }
}

fn ones() -> NodeHash {
    hash(0x11)
}

fn twos() -> NodeHash {
    hash(0x22)
}

fn threes() -> NodeHash {
    hash(0x33)
}

fn fours() -> NodeHash {
    hash(0x44)
}

fn fives() -> NodeHash {
    hash(0x55)
}

fn sixes() -> NodeHash {
    hash(0x66)
}

fn sevens() -> NodeHash {
    hash(0x77)
}

fn eights() -> NodeHash {
    hash(0x88)
}

fn file(path: &[u8]) -> RepoPath {
    RepoPath::file(MPath::new(path).unwrap()).unwrap()
}

fn first_file() -> Filelog {
    Filelog {
        path: file(b"test"),
        node: ones(),
        p1: Some(twos()),
        p2: Some(threes()),
        linknode: fours(),
        blob: Bytes::from("test file content"),
    }
}

fn second_file() -> Filelog {
    Filelog {
        path: file(b"test2"),
        node: fives(),
        p1: Some(sixes()),
        p2: Some(sevens()),
        linknode: eights(),
        blob: Bytes::from("test2 file content"),
    }
}

fn check_conversion(inp: Vec<FilelogDeltaed>, exp: Vec<Filelog>) {
    let result = convert_to_revlog_filelog(&Repo::new("repo"), &inp)
        .collect()
        .unwrap();
    assert_eq!(result, exp);
}

fn files_check_order(correct_order: bool) {
    let f1 = first_file();
    let f2 = second_file();

    let f1_deltaed = filelog_to_deltaed(&f1);
    let mut f2_deltaed = filelog_to_deltaed(&f2);

    f2_deltaed.chunk.base = f1.node.clone();
    f2_deltaed.chunk.delta = compute_delta(f1.blob.as_ref(), f2.blob.as_ref());

    let inp = if correct_order {
        vec![f1_deltaed, f2_deltaed]
    } else {
        vec![f2_deltaed, f1_deltaed]
    };

    let result = convert_to_revlog_filelog(&Repo::new("repo"), &inp).collect();

    match result {
        Ok(_) => assert!(
            correct_order,
            "Successfuly converted even though order was incorrect"
        ),
        Err(_) => assert!(
            !correct_order,
            "Filed to convert even though order was correct"
        ),
    }
}

#[test]
fn two_fulltext_files() {
    let f1 = first_file();
    let f2 = second_file();

    check_conversion(
        vec![filelog_to_deltaed(&f1), filelog_to_deltaed(&f2)],
        vec![f1, f2],
    );
}

#[test]
fn files_order_correct() {
    files_check_order(true);
}

#[test]
fn files_order_incorrect() {
    files_check_order(false);
}

#[test]
fn chained_delta_gives_both_blobs() {
    let f1 = first_file();
    let f2 = second_file();
    let inp = vec![filelog_to_deltaed(&f1), filelog_to_delta_against(&f1, &f2)];
    let conversion = convert_to_revlog_filelog(&Repo::new("repo"), &inp);
    assert_eq!(conversion.error, None);
    assert!(conversion.fetched.is_empty());
    assert_eq!(conversion.filelogs.len(), 2);
    assert_eq!(&conversion.filelogs[0].blob[..], b"test file content");
    assert_eq!(&conversion.filelogs[1].blob[..], b"test2 file content");
    assert_eq!(conversion.filelogs, vec![f1, f2]);
}

#[test]
fn reversed_order_is_missing_base() {
    let f1 = first_file();
    let f2 = second_file();
    let inp = vec![filelog_to_delta_against(&f1, &f2), filelog_to_deltaed(&f1)];
    let conversion = convert_to_revlog_filelog(&Repo::new("repo"), &inp);
    assert_eq!(
        conversion.error,
        Some(Error {
            kind: ErrorKind::MissingBase,
            context: Some(DeltaContext {
                base: ones(),
                node: fives()
            }),
        })
    );
    assert!(conversion.filelogs.is_empty());
    assert_eq!(conversion.fetched, vec![ones()]);
}

#[test]
fn failure_keeps_what_was_emitted() {
    let f1 = first_file();
    let f2 = second_file();
    let mut broken = filelog_to_deltaed(&f2);
    broken.chunk.base = threes();
    let inp = vec![
        filelog_to_deltaed(&f1),
        broken,
        filelog_to_deltaed(&second_file()),
    ];
    let conversion = convert_to_revlog_filelog(&Repo::new("repo"), &inp);
    assert_eq!(conversion.filelogs, vec![f1]);
    assert_eq!(conversion.error.map(|e| e.kind), Some(ErrorKind::MissingBase));
}

#[test]
fn base_is_fetched_from_repository() {
    let f1 = first_file();
    let f2 = second_file();
    let mut repo = Repo::new("repo");
    assert!(repo.add_file(f1.node, f1.blob.clone()));
    assert!(!repo.add_file(f1.node, Bytes::from("other")));
    let inp = vec![filelog_to_delta_against(&f1, &f2)];
    let conversion = convert_to_revlog_filelog(&repo, &inp);
    assert_eq!(conversion.error, None);
    assert_eq!(conversion.filelogs, vec![f2]);
    assert_eq!(conversion.fetched, vec![ones()]);
}

#[test]
fn shared_base_is_not_fetched() {
    let f0 = first_file();
    let mut others = Vec::new();
    for i in 0..3u8 {
        others.push(Filelog {
            path: file(b"dir/file"),
            node: hash(0xa0 + i),
            p1: None,
            p2: None,
            linknode: eights(),
            blob: Bytes::from(vec![b't', b'e', b's', b't', i, i, i]),
        });
    }
    let mut inp = vec![filelog_to_deltaed(&f0)];
    for f in &others {
        inp.push(filelog_to_delta_against(&f0, f));
    }
    let conversion = convert_to_revlog_filelog(&Repo::new("repo"), &inp);
    assert_eq!(conversion.error, None);
    assert!(conversion.fetched.is_empty());
    let mut exp = vec![f0];
    exp.extend(others);
    assert_eq!(conversion.filelogs, exp);
}

#[test]
fn empty_blob_roundtrips() {
    let f = Filelog {
        path: file(b"empty"),
        node: ones(),
        p1: None,
        p2: None,
        linknode: fours(),
        blob: Bytes::new(),
    };
    let conversion = convert_to_revlog_filelog(&Repo::new("repo"), &vec![filelog_to_deltaed(&f)]);
    assert_eq!(conversion.error, None);
    assert_eq!(conversion.filelogs.len(), 1);
    assert!(conversion.filelogs[0].blob.is_empty());
    assert_eq!(conversion.filelogs, vec![f]);
}

#[test]
fn null_parents_become_none() {
    let f = Filelog {
        path: file(b"a/b"),
        node: ones(),
        p1: Some(twos()),
        p2: None,
        linknode: fours(),
        blob: Bytes::from("x"),
    };
    let rec = filelog_to_deltaed(&f);
    assert_eq!(rec.chunk.p1, twos());
    assert_eq!(rec.chunk.p2, NodeHash::null());
    assert_eq!(rec.chunk.base, NodeHash::null());
    let out = convert_to_revlog_filelog(&Repo::new("repo"), &vec![rec])
        .collect()
        .unwrap();
    assert_eq!(out[0].p1, Some(twos()));
    assert_eq!(out[0].p2, None);
}

#[test]
fn null_base_is_empty_not_looked_up() {
    let mut repo = Repo::new("repo");
    repo.add_file(NodeHash::null(), Bytes::from("must not be read"));
    let f = first_file();
    let conversion = convert_to_revlog_filelog(&repo, &vec![filelog_to_deltaed(&f)]);
    assert!(conversion.fetched.is_empty());
    assert_eq!(conversion.filelogs, vec![f]);
}

#[test]
fn into_option_maps_null_to_none() {
    assert_eq!(NodeHash::null().into_option(), None);
    assert_eq!(ones().into_option(), Some(ones()));
    let mut almost = NodeHash::null();
    almost.bytes[19] = 1;
    assert_eq!(almost.into_option(), Some(almost));
    assert_ne!(almost, NodeHash::null());
}

#[test]
fn apply_walks_fragments() {
    let delta = Delta::new(vec![
        Fragment { start: 0, end: 2, content: b"XY".to_vec() },
        Fragment { start: 4, end: 4, content: b"++".to_vec() },
        Fragment { start: 6, end: 8, content: vec![] },
    ])
    .unwrap();
    assert_eq!(apply(b"0123456789", &delta), Ok(b"XY23++4589".to_vec()));
}

#[test]
fn apply_rejects_what_does_not_fit() {
    let invalid = Err(Error { kind: ErrorKind::InvalidDelta, context: None });
    let past_end = Delta::new(vec![Fragment { start: 2, end: 5, content: vec![] }]).unwrap();
    assert_eq!(apply(b"0123", &past_end), invalid);
    assert_eq!(apply(b"01234", &past_end), Ok(b"01".to_vec()));
    let fulltext = Delta::new_fulltext(b"abc");
    assert_eq!(apply(b"", &fulltext), Ok(b"abc".to_vec()));
    assert_eq!(
        fulltext.fragments(),
        &vec![Fragment { start: 0, end: 0, content: b"abc".to_vec() }]
    );
}

#[test]
fn delta_new_rejects_disorder() {
    let invalid = Error { kind: ErrorKind::InvalidDelta, context: None };
    let overlapping = vec![
        Fragment { start: 0, end: 3, content: vec![1] },
        Fragment { start: 2, end: 4, content: vec![2] },
    ];
    assert_eq!(Delta::new(overlapping), Err(invalid));
    let backwards = vec![Fragment { start: 3, end: 2, content: vec![] }];
    assert_eq!(Delta::new(backwards), Err(invalid));
    let unordered = vec![
        Fragment { start: 5, end: 6, content: vec![] },
        Fragment { start: 0, end: 1, content: vec![] },
    ];
    assert_eq!(Delta::new(unordered), Err(invalid));
    let touching = vec![
        Fragment { start: 0, end: 3, content: vec![1] },
        Fragment { start: 3, end: 4, content: vec![2] },
    ];
    assert!(Delta::new(touching).is_ok());
}

#[test]
fn compute_delta_exact_fragments() {
    let delta = compute_delta(b"test file content", b"test2 file content");
    assert_eq!(
        delta.fragments(),
        &vec![Fragment { start: 4, end: 17, content: b"2 file content".to_vec() }]
    );
    let runs = compute_delta(b"aXbXcXd", b"aYbXcZd");
    assert_eq!(
        runs.fragments(),
        &vec![
            Fragment { start: 1, end: 2, content: b"Y".to_vec() },
            Fragment { start: 5, end: 6, content: b"Z".to_vec() },
        ]
    );
    let shorter = compute_delta(b"abcdef", b"abX");
    assert_eq!(
        shorter.fragments(),
        &vec![
            Fragment { start: 2, end: 3, content: b"X".to_vec() },
            Fragment { start: 3, end: 6, content: vec![] },
        ]
    );
    let longer = compute_delta(b"ab", b"abcd");
    assert_eq!(
        longer.fragments(),
        &vec![Fragment { start: 2, end: 2, content: b"cd".to_vec() }]
    );
    assert!(compute_delta(b"same", b"same").fragments().is_empty());
}

#[test]
fn compute_delta_roundtrips() {
    let samples: Vec<&[u8]> = vec![
        b"",
        b"a",
        b"ab",
        b"ba",
        b"abc",
        b"xbc",
        b"abx",
        b"test file content",
        b"test2 file content",
        b"aXbXcXd",
        b"aYbYcYdYe",
    ];
    for b1 in &samples {
        for b2 in &samples {
            let delta = compute_delta(b1, b2);
            assert_eq!(apply(b1, &delta), Ok(b2.to_vec()));
        }
    }
}

#[test]
fn cache_inserts_each_node_once() {
    let mut cache = DeltaCache::new();
    let first = cache.decode(ones(), None, &Delta::new_fulltext(b"one"), BaseLookup::Missing);
    assert!(first.inserted);
    assert_eq!(first.value, Ok(Bytes::from("one")));
    let again = cache.decode(ones(), None, &Delta::new_fulltext(b"other"), BaseLookup::Missing);
    assert!(!again.inserted);
    assert_eq!(again.value, Ok(Bytes::from("one")));
    assert!(cache.contains(&ones()));
    assert!(!cache.contains(&twos()));
    assert_eq!(cache.get(&ones()), Some(Ok(Bytes::from("one"))));
    assert_eq!(cache.get(&twos()), None);
}

#[test]
fn cache_decides_what_to_fetch() {
    let mut cache = DeltaCache::new();
    assert_eq!(cache.needs_fetch(&twos(), Some(ones())), Some(ones()));
    assert_eq!(cache.needs_fetch(&twos(), None), None);
    cache.decode(ones(), None, &Delta::new_fulltext(b"one"), BaseLookup::Missing);
    assert_eq!(cache.needs_fetch(&twos(), Some(ones())), None);
    assert_eq!(cache.needs_fetch(&ones(), Some(threes())), None);
    assert_eq!(cache.needs_fetch(&twos(), Some(threes())), Some(threes()));
}

#[test]
fn cache_error_kinds() {
    let mut cache = DeltaCache::new();
    let delta = compute_delta(b"one", b"two");
    let context = Some(DeltaContext { base: ones(), node: twos() });
    let missing = cache.decode(twos(), Some(ones()), &delta, BaseLookup::Missing);
    assert_eq!(missing.value, Err(Error { kind: ErrorKind::MissingBase, context }));
    let mut cache = DeltaCache::new();
    let failed = cache.decode(twos(), Some(ones()), &delta, BaseLookup::Failed);
    assert_eq!(failed.value, Err(Error { kind: ErrorKind::StorageIO, context }));
    let mut cache = DeltaCache::new();
    let short = cache.decode(twos(), Some(ones()), &delta, BaseLookup::Found(Bytes::from("o")));
    assert_eq!(short.value, Err(Error { kind: ErrorKind::InvalidDelta, context }));
    let dependent = cache.decode(threes(), Some(twos()), &delta, BaseLookup::Missing);
    assert_eq!(
        dependent.value,
        Err(Error {
            kind: ErrorKind::InvalidDelta,
            context: Some(DeltaContext { base: twos(), node: threes() }),
        })
    );
    let mut cache = DeltaCache::new();
    let found = cache.decode(twos(), Some(ones()), &delta, BaseLookup::Found(Bytes::from("one")));
    assert_eq!(found.value, Ok(Bytes::from("two")));
    let no_base = cache.decode(threes(), None, &delta, BaseLookup::Missing);
    assert_eq!(no_base.value, Err(Error { kind: ErrorKind::InvalidDelta, context: None }));
}

#[test]
fn resolver_steps() {
    let f1 = first_file();
    let f2 = second_file();
    let mut resolver = FilelogResolver::new();
    let rec2 = filelog_to_delta_against(&f1, &f2);
    assert_eq!(resolver.needs_fetch(&rec2), Some(ones()));
    let rec1 = filelog_to_deltaed(&f1);
    assert_eq!(resolver.needs_fetch(&rec1), None);
    let step = resolver.resolve(&rec1, BaseLookup::Missing);
    assert!(step.inserted);
    assert_eq!(step.filelog, Ok(first_file()));
    assert_eq!(resolver.needs_fetch(&rec2), None);
    let step = resolver.resolve(&rec2, BaseLookup::Missing);
    assert!(step.inserted);
    assert_eq!(step.filelog, Ok(second_file()));
    let step = resolver.resolve(&rec2, BaseLookup::Missing);
    assert!(!step.inserted);
    assert_eq!(step.filelog, Ok(second_file()));
}

#[test]
fn paths_are_validated() {
    let invalid = Error { kind: ErrorKind::InvalidPath, context: None };
    assert_eq!(MPath::new(b""), Err(invalid));
    assert_eq!(MPath::new(b"a\0b"), Err(invalid));
    assert_eq!(MPath::new(b"/a"), Err(invalid));
    assert_eq!(MPath::new(b"a/"), Err(invalid));
    assert_eq!(MPath::new(b"a//b"), Err(invalid));
    assert_eq!(MPath::new(b"/"), Err(invalid));
    let path = MPath::new(b"a/b.txt").unwrap();
    assert_eq!(path.as_bytes(), b"a/b.txt");
    assert!(path.is_valid());
    let file = RepoPath::file(path.clone()).unwrap();
    assert_eq!(file.mpath(), Some(&path));
    assert_eq!(RepoPath::dir(path.clone()), Ok(RepoPath::Directory(path)));
    assert_eq!(RepoPath::Root.mpath(), None);
}

#[test]
fn filelog_invariant_is_checked() {
    assert!(first_file().is_wf());
    let mut null_node = first_file();
    null_node.node = NodeHash::null();
    assert!(!null_node.is_wf());
    let mut null_link = first_file();
    null_link.linknode = NodeHash::null();
    assert!(!null_link.is_wf());
    let mut null_parent = first_file();
    null_parent.p2 = Some(NodeHash::null());
    assert!(!null_parent.is_wf());
    let mut no_parents = first_file();
    no_parents.p1 = None;
    no_parents.p2 = None;
    assert!(no_parents.is_wf());
    let mut directory = first_file();
    directory.path = RepoPath::dir(MPath::new(b"test").unwrap()).unwrap();
    assert!(!directory.is_wf());
    let mut root = first_file();
    root.path = RepoPath::Root;
    assert!(!root.is_wf());
}

#[test]
fn shared_base_is_decoded_once() {
    let f0 = first_file();
    let mut resolver = FilelogResolver::new();
    let mut inserted = 0;
    let mut records = vec![filelog_to_deltaed(&f0)];
    for i in 0..3u8 {
        let mut f = second_file();
        f.node = hash(0xb0 + i);
        records.push(filelog_to_delta_against(&f0, &f));
    }
    records.push(filelog_to_deltaed(&f0));
    for record in &records {
        assert_eq!(resolver.needs_fetch(record), None);
        let step = resolver.resolve(record, BaseLookup::Failed);
        assert!(step.filelog.is_ok());
        if step.inserted {
            inserted += 1;
        }
    }
    assert_eq!(inserted, 4);
}
