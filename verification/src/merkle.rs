//! A binary hash tree over a snapshot of latest prices, and its root.

use crate::types::{Price, Symbol};
use serde_bytes::ByteBuf;
use sha2::{Digest, Sha256};
use vstd::prelude::*;
use vstd::utf8::encode_utf8;

verus! {

/// The SHA-256 digest of `data`.
pub uninterp spec fn sha256(data: Seq<u8>) -> Seq<u8>;

/// The bytes that a byte buffer holds.
pub uninterp spec fn buffer_bytes(buffer: ByteBuf) -> Seq<u8>;

/// A byte buffer of the `serde_bytes` crate: opaque here but for its bytes.
#[verifier::external_type_specification]
#[verifier::external_body]
pub struct ExByteBuf(serde_bytes::ByteBuf);

/// `Sha256::digest` of the `sha2` crate: the 32-byte SHA-256 digest of
/// `data`. Nothing of the digest is proved here; it is only named.
#[verifier::external_body]
pub fn hash_data(data: &[u8]) -> (digest: [u8; 32])
    ensures
        digest@ == sha256(data@),
{
    Sha256::digest(data).into()
}

/// `ByteBuf::from` of the `serde_bytes` crate: a buffer that holds exactly
/// the bytes handed in.
#[verifier::external_body]
fn into_byte_buf(bytes: Vec<u8>) -> (buffer: ByteBuf)
    ensures
        buffer_bytes(buffer) == bytes@,
{
    ByteBuf::from(bytes)
}

/// The eight bytes of `x`, most significant first.
pub open spec fn be_bytes(x: u64) -> Seq<u8> {
    seq![
        ((x >> 56) & 0xff) as u8,
        ((x >> 48) & 0xff) as u8,
        ((x >> 40) & 0xff) as u8,
        ((x >> 32) & 0xff) as u8,
        ((x >> 24) & 0xff) as u8,
        ((x >> 16) & 0xff) as u8,
        ((x >> 8) & 0xff) as u8,
        (x & 0xff) as u8,
    ]
}

/// The root of a snapshot without entries: 32 zero bytes.
pub open spec fn zero_digest() -> Seq<u8> {
    Seq::new(32, |i: int| 0u8)
}

/// What is hashed into the leaf of one entry: the symbol, the value and the
/// timestamp (eight bytes each, most significant first), the source, and
/// the confidence where there is one.
pub open spec fn leaf_bytes(symbol: Seq<char>, price: Price) -> Seq<u8> {
    encode_utf8(symbol) + be_bytes(price.value) + be_bytes(price.timestamp) + encode_utf8(
        price.source@,
    ) + (match price.confidence {
        Some(confidence) => be_bytes(confidence),
        None => Seq::empty(),
    })
}

/// The leaves of a snapshot, one per entry and in its order.
pub open spec fn leaves_of(pairs: Seq<(Symbol, Price)>) -> Seq<Seq<u8>> {
    Seq::new(pairs.len(), |i: int| sha256(leaf_bytes(pairs[i].0@, pairs[i].1)))
}

/// The level above `nodes`: each pair of neighbours, taken from the left,
/// gives the digest of its two nodes joined; a last node without a
/// neighbour moves up as it is.
pub open spec fn next_level(nodes: Seq<Seq<u8>>) -> Seq<Seq<u8>> {
    Seq::new(
        ((nodes.len() + 1) / 2) as nat,
        |i: int|
            if 2 * i + 1 < nodes.len() {
                sha256(nodes[2 * i] + nodes[2 * i + 1])
            } else {
                nodes[2 * i]
            },
    )
}

/// The one node left when levels are reduced until one node remains.
pub open spec fn root_of(nodes: Seq<Seq<u8>>) -> Seq<u8>
    decreases nodes.len(),
{
    if nodes.len() == 0 {
        zero_digest()
    } else if nodes.len() == 1 {
        nodes[0]
    } else {
        root_of(next_level(nodes))
    }
}

/// The root that commits to `pairs` in the order given.
pub open spec fn merkle_root(pairs: Seq<(Symbol, Price)>) -> Seq<u8> {
    root_of(leaves_of(pairs))
}

/// The root of the empty snapshot is the all-zero digest.
pub proof fn lemma_empty_root_is_zero()
    ensures
        merkle_root(Seq::empty()) == zero_digest(),
        zero_digest().len() == 32,
        forall|i: int| 0 <= i < 32 ==> zero_digest()[i] == 0,
{
}

/// The root is a function of what is hashed, entry by entry and in order:
/// two snapshots whose entries yield the same leaf bytes have one root.
pub proof fn lemma_root_determined_by_leaf_bytes(a: Seq<(Symbol, Price)>, b: Seq<(Symbol, Price)>)
    requires
        a.len() == b.len(),
        forall|i: int|
            0 <= i < a.len() ==> leaf_bytes(a[i].0@, a[i].1) == leaf_bytes(b[i].0@, b[i].1),
    ensures
        merkle_root(a) == merkle_root(b),
{
    assert(leaves_of(a) =~= leaves_of(b));
}

/// A level of odd length hands its last node up unchanged, beside the
/// digests of the pairs before it.
pub proof fn lemma_odd_level_carries_last(nodes: Seq<Seq<u8>>)
    requires
        nodes.len() % 2 == 1,
    ensures
        next_level(nodes).len() == (nodes.len() + 1) / 2,
        next_level(nodes).last() == nodes.last(),
        forall|i: int|
            0 <= i < next_level(nodes).len() - 1 ==> #[trigger] next_level(nodes)[i] == sha256(
                nodes[2 * i] + nodes[2 * i + 1],
            ),
{
}

/// Three leaves: the first two are hashed together, the third moves up
/// unchanged and is hashed with that digest into the root.
pub proof fn lemma_root_of_three(a: Seq<u8>, b: Seq<u8>, c: Seq<u8>)
    ensures
        root_of(seq![a, b, c]) == sha256(sha256(a + b) + c),
{
    let level0 = seq![a, b, c];
    let level1 = next_level(level0);
    assert(level1 =~= seq![sha256(a + b), c]);
    let level2 = next_level(level1);
    assert(level2 =~= seq![sha256(sha256(a + b) + c)]);
    reveal_with_fuel(root_of, 3);
}

/// Whether `x` and `y` are two byte strings with one digest.
pub open spec fn is_collision(x: Seq<u8>, y: Seq<u8>) -> bool {
    x != y && sha256(x) == sha256(y)
}

/// Whether every digest is 32 bytes long.
pub open spec fn digests_are_whole() -> bool {
    forall|x: Seq<u8>| (#[trigger] sha256(x)).len() == 32
}

/// Whether every node of a level is 32 bytes long.
pub open spec fn nodes_are_whole(nodes: Seq<Seq<u8>>) -> bool {
    forall|i: int| 0 <= i < nodes.len() ==> (#[trigger] nodes[i]).len() == 32
}

proof fn lemma_levels_collide(a: Seq<Seq<u8>>, b: Seq<Seq<u8>>)
    requires
        a.len() == b.len(),
        a != b,
        nodes_are_whole(a),
        nodes_are_whole(b),
        digests_are_whole(),
        root_of(a) == root_of(b),
    ensures
        exists|x: Seq<u8>, y: Seq<u8>| is_collision(x, y),
    decreases a.len(),
{
    if forall|i: int| 0 <= i < a.len() ==> a[i] == b[i] {
        assert(a =~= b);
    }
    let i = choose|i: int| 0 <= i < a.len() && a[i] != b[i];
    if a.len() > 1 {
        let above_a = next_level(a);
        let above_b = next_level(b);
        if above_a == above_b {
            let k = i / 2;
            assert(above_a[k] == above_b[k]);
            if 2 * k + 1 < a.len() {
                let x = a[2 * k] + a[2 * k + 1];
                let y = b[2 * k] + b[2 * k + 1];
                assert(x.subrange(0, 32) =~= a[2 * k]);
                assert(y.subrange(0, 32) =~= b[2 * k]);
                assert(x.subrange(32, 64) =~= a[2 * k + 1]);
                assert(y.subrange(32, 64) =~= b[2 * k + 1]);
                assert(is_collision(x, y));
            }
        } else {
            assert(nodes_are_whole(above_a));
            assert(nodes_are_whole(above_b));
            lemma_levels_collide(above_a, above_b);
        }
    }
}

/// Tamper evidence: two snapshots of one length that differ in what some
/// entry hashes have different roots, or else two byte strings with one
/// digest are at hand. This holds where every digest is 32 bytes long.
pub proof fn lemma_tampering_needs_collision(a: Seq<(Symbol, Price)>, b: Seq<(Symbol, Price)>)
    requires
        a.len() == b.len(),
        exists|i: int|
            0 <= i < a.len() && leaf_bytes(a[i].0@, a[i].1) != leaf_bytes(b[i].0@, b[i].1),
        digests_are_whole(),
        merkle_root(a) == merkle_root(b),
    ensures
        exists|x: Seq<u8>, y: Seq<u8>| is_collision(x, y),
{
    let i = choose|i: int|
        0 <= i < a.len() && leaf_bytes(a[i].0@, a[i].1) != leaf_bytes(b[i].0@, b[i].1);
    let leaves_a = leaves_of(a);
    let leaves_b = leaves_of(b);
    if leaves_a == leaves_b {
        assert(leaves_a[i] == leaves_b[i]);
        assert(is_collision(leaf_bytes(a[i].0@, a[i].1), leaf_bytes(b[i].0@, b[i].1)));
    } else {
        lemma_levels_collide(leaves_a, leaves_b);
    }
}

/// The digests of `nodes` as byte strings.
pub open spec fn digests(nodes: Seq<[u8; 32]>) -> Seq<Seq<u8>> {
    nodes.map_values(|node: [u8; 32]| node@)
}

fn append_bytes(data: &mut Vec<u8>, bytes: &[u8])
    ensures
        final(data)@ == old(data)@ + bytes@,
{
    let mut i: usize = 0;
    assert(data@ =~= old(data)@ + bytes@.take(0));
    while i < bytes.len()
        invariant
            i <= bytes.len(),
            data@ == old(data)@ + bytes@.take(i as int),
        decreases bytes.len() - i,
    {
        data.push(bytes[i]);
        assert(bytes@.take(i + 1) =~= bytes@.take(i as int).push(bytes@[i as int]));
        assert(data@ =~= old(data)@ + bytes@.take(i + 1));
        i = i + 1;
    }
    assert(bytes@.take(i as int) =~= bytes@);
}

fn append_be_bytes(data: &mut Vec<u8>, x: u64)
    ensures
        final(data)@ == old(data)@ + be_bytes(x),
{
    assert(((x >> 56) & 0xff) < 256 && ((x >> 48) & 0xff) < 256 && ((x >> 40) & 0xff) < 256 && ((x
        >> 32) & 0xff) < 256 && ((x >> 24) & 0xff) < 256 && ((x >> 16) & 0xff) < 256 && ((x >> 8)
        & 0xff) < 256 && (x & 0xff) < 256) by (bit_vector);
    data.push(((x >> 56) & 0xff) as u8);
    data.push(((x >> 48) & 0xff) as u8);
    data.push(((x >> 40) & 0xff) as u8);
    data.push(((x >> 32) & 0xff) as u8);
    data.push(((x >> 24) & 0xff) as u8);
    data.push(((x >> 16) & 0xff) as u8);
    data.push(((x >> 8) & 0xff) as u8);
    data.push((x & 0xff) as u8);
    assert(data@ =~= old(data)@ + be_bytes(x));
}

/// The leaf of one entry: the digest of its symbol and price, laid out as
/// `leaf_bytes` says.
pub fn leaf_hash(symbol: &str, price: &Price) -> (leaf: [u8; 32])
    ensures
        leaf@ == sha256(leaf_bytes(symbol@, *price)),
{
    let mut data: Vec<u8> = Vec::new();
    append_bytes(&mut data, symbol.as_bytes());
    append_be_bytes(&mut data, price.value);
    append_be_bytes(&mut data, price.timestamp);
    append_bytes(&mut data, price.source.as_str().as_bytes());
    match price.confidence {
        Some(confidence) => {
            append_be_bytes(&mut data, confidence);
        },
        None => {
            assert(data@ =~= data@ + Seq::<u8>::empty());
        },
    }
    assert(data@ =~= leaf_bytes(symbol@, *price));
    hash_data(data.as_slice())
}

/// The level above `level`.
fn reduce_level(level: &Vec<[u8; 32]>) -> (above: Vec<[u8; 32]>)
    ensures
        digests(above@) == next_level(digests(level@)),
        above@.len() == (level@.len() + 1) / 2,
{
    let mut above: Vec<[u8; 32]> = Vec::new();
    let mut i: usize = 0;
    let ghost nodes = digests(level@);
    while i < level.len()
        invariant
            i <= level.len(),
            i % 2 == 0 || i == level.len(),
            nodes == digests(level@),
            above@.len() == (i + 1) / 2,
            forall|k: int| 0 <= k < above@.len() ==> (#[trigger] above@[k])@ == next_level(nodes)[k],
        decreases level.len() - i,
    {
        if level.len() - i >= 2 {
            let mut combined: Vec<u8> = Vec::new();
            append_bytes(&mut combined, level[i].as_slice());
            append_bytes(&mut combined, level[i + 1].as_slice());
            assert(combined@ =~= nodes[i as int] + nodes[i + 1]);
            above.push(hash_data(combined.as_slice()));
            i = i + 2;
        } else {
            above.push(level[i]);
            i = i + 1;
        }
    }
    assert(digests(above@) =~= next_level(nodes));
    above
}

/// The root that commits to `pairs` in the order given: 32 zero bytes for
/// no entries, else the node left when the leaves are reduced level by level.
/// The root depends on the order, so callers agree on one.
pub fn build_merkle_tree(pairs: &[(Symbol, Price)]) -> (root: Vec<u8>)
    ensures
        root@ == merkle_root(pairs@),
{
    let mut root: Vec<u8> = Vec::new();
    if pairs.len() == 0 {
        let mut filled: usize = 0;
        while filled < 32
            invariant
                filled <= 32,
                root@.len() == filled,
                forall|k: int| 0 <= k < filled ==> root@[k] == 0,
            decreases 32 - filled,
        {
            root.push(0u8);
            filled = filled + 1;
        }
        assert(root@ =~= zero_digest());
        assert(leaves_of(pairs@) =~= Seq::<Seq<u8>>::empty());
        return root;
    }
    let mut level: Vec<[u8; 32]> = Vec::new();
    let mut i: usize = 0;
    while i < pairs.len()
        invariant
            i <= pairs.len(),
            level@.len() == i,
            forall|k: int| 0 <= k < i ==> (#[trigger] level@[k])@ == leaves_of(pairs@)[k],
        decreases pairs.len() - i,
    {
        level.push(leaf_hash(pairs[i].0.as_str(), &pairs[i].1));
        i = i + 1;
    }
    assert(digests(level@) =~= leaves_of(pairs@));
    while level.len() > 1
        invariant
            level@.len() >= 1,
            root_of(digests(level@)) == merkle_root(pairs@),
        decreases level@.len(),
    {
        level = reduce_level(&level);
    }
    append_bytes(&mut root, level[0].as_slice());
    assert(root@ =~= digests(level@)[0]);
    root
}

/// The snapshot handed in, beside the root that commits to it, so that a
/// verifier can compute the root again from the same entries.
pub fn create_certified_snapshot(pairs: Vec<(Symbol, Price)>) -> (certified: (
    Vec<(Symbol, Price)>,
    ByteBuf,
))
    ensures
        certified.0 == pairs,
        buffer_bytes(certified.1) == merkle_root(pairs@),
{
    let root_hash = build_merkle_tree(pairs.as_slice());
    (pairs, into_byte_buf(root_hash))
}

} // verus!
