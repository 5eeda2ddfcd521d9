use mononoke::delta::apply;
use mononoke::diff::compute_delta;
use mononoke::filelog::{Filelog, FilelogDeltaed};
use mononoke::nodehash::NodeHash;
use mononoke::repo::Repo;
use mononoke::resolver::{convert_to_revlog_filelog, FilelogResolver};
use mononoke::cache::BaseLookup;
use mononoke::roundtrip::{filelog_to_delta_against, filelog_to_deltaed};
use quickcheck::{quickcheck, Arbitrary, Gen};

#[derive(Clone, Debug)]
struct AnyFilelog(Filelog);

fn any_node<G: Gen>(g: &mut G) -> NodeHash {
    let mut bytes = [0u8; 20];
    for byte in bytes.iter_mut() {
        *byte = u8::arbitrary(g);
    }
    NodeHash { bytes }
}

fn any_path<G: Gen>(g: &mut G) -> Vec<u8> {
    let mut path = Vec::new();
    for component in 0..(1 + usize::arbitrary(g) % 3) {
        if component > 0 {
            path.push(b'/');
        }
        for _ in 0..(usize::arbitrary(g) % 4) {
            path.push(b'a' + u8::arbitrary(g) % 26);
        }
    }
    path
}

impl Arbitrary for AnyFilelog {
    fn arbitrary<G: Gen>(g: &mut G) -> Self {
        let path = any_path(g);
        let node = any_node(g);
        let p1 = if bool::arbitrary(g) { any_node(g) } else { NodeHash::null() };
        let p2 = if bool::arbitrary(g) { any_node(g) } else { NodeHash::null() };
        let linknode = any_node(g);
        AnyFilelog(Filelog::from_raw(&path, node, p1, p2, linknode, Vec::<u8>::arbitrary(g)))
    }

    fn shrink(&self) -> Box<dyn Iterator<Item = Self>> {
        Box::new(self.0.shrink().into_iter().map(AnyFilelog))
    }
}

struct NodeHashGen {
    bytes: Vec<u8>,
}

impl NodeHashGen {
    fn new() -> Self {
        Self { bytes: NodeHash::null().bytes.to_vec() }
    }

    fn next(&mut self) -> NodeHash {
        for i in 0..self.bytes.len() {
            if self.bytes[i] == 255 {
                self.bytes[i] = 0;
            } else {
                self.bytes[i] = self.bytes[i] + 1;
                return NodeHash::from_bytes(self.bytes.as_slice()).unwrap();
            }
        }

        panic!("NodeHashGen overflow");
    }
}

fn converts(inp: Vec<FilelogDeltaed>, exp: Vec<Filelog>) -> bool {
    let conversion = convert_to_revlog_filelog(&Repo::new("memblob"), &inp);
    conversion.fetched.is_empty() && conversion.collect() == Ok(exp)
}

fn holds_delta_computation(b1: Vec<u8>, b2: Vec<u8>) -> bool {
    apply(&b1, &compute_delta(&b1, &b2)) == Ok(b2)
}

fn holds_conversion_single(f: AnyFilelog) -> bool {
    converts(vec![filelog_to_deltaed(&f.0)], vec![f.0])
}

fn holds_conversion_delta_against_first(f: AnyFilelog, fs: Vec<AnyFilelog>) -> bool {
    let mut hash_gen = NodeHashGen::new();

    let mut f = f.0.clone();
    f.node = hash_gen.next();

    let mut fs: Vec<Filelog> = fs.into_iter().map(|el| el.0).collect();
    for el in fs.iter_mut() {
        el.node = hash_gen.next();
    }

    let mut deltas = vec![filelog_to_deltaed(&f)];
    for filelog in &fs {
        deltas.push(filelog_to_delta_against(&f, filelog));
    }

    converts(deltas, vec![f].into_iter().chain(fs).collect())
}

fn holds_conversion_delta_against_next(fs: Vec<AnyFilelog>) -> bool {
    let mut hash_gen = NodeHashGen::new();

    let mut fs: Vec<Filelog> = fs.into_iter().map(|el| el.0).collect();
    for el in fs.iter_mut() {
        el.node = hash_gen.next();
    }

    let mut deltas = Vec::new();
    for (i, next) in fs.iter().enumerate() {
        if i == 0 {
            deltas.push(filelog_to_deltaed(next));
        } else {
            deltas.push(filelog_to_delta_against(&fs[i - 1], next));
        }
    }

    converts(deltas, fs)
}

fn holds_inserted_once(fs: Vec<AnyFilelog>) -> bool {
    let mut resolver = FilelogResolver::new();
    let mut seen: Vec<NodeHash> = Vec::new();
    for f in &fs {
        let record = filelog_to_deltaed(&f.0);
        let first = !seen.contains(&f.0.node);
        if resolver.resolve(&record, BaseLookup::Missing).inserted != first {
            return false;
        }
        if resolver.resolve(&record, BaseLookup::Missing).inserted {
            return false;
        }
        seen.push(f.0.node);
    }
    true
}

#[test]
fn sanitycheck_delta_computation() {
    quickcheck(holds_delta_computation as fn(Vec<u8>, Vec<u8>) -> bool);
}

#[test]
fn correct_conversion_single() {
    quickcheck(holds_conversion_single as fn(AnyFilelog) -> bool);
}

#[test]
fn correct_conversion_delta_against_first() {
    quickcheck(holds_conversion_delta_against_first as fn(AnyFilelog, Vec<AnyFilelog>) -> bool);
}

#[test]
fn correct_conversion_delta_against_next() {
    quickcheck(holds_conversion_delta_against_next as fn(Vec<AnyFilelog>) -> bool);
}

#[test]
fn delta_cache_inserts_each_node_once() {
    quickcheck(holds_inserted_once as fn(Vec<AnyFilelog>) -> bool);
}
