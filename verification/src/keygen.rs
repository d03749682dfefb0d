//! Deterministic keys for load testing.
//!
//! The keys are placeholders, drawn from a seeded generator: for tests only.

use vstd::prelude::*;
use rand::{RngCore, SeedableRng};
use crate::hex::{encode, hex_of, law_hex_is_bytewise, law_hex_reads_back};

verus! {

/// Byte `i` of the stream that `StdRng` yields from a seed.
pub uninterp spec fn stream_byte(seed: u64, i: nat) -> u8;

/// The bytes `from..to` of the stream of a seed.
pub open spec fn stream(seed: u64, from: nat, to: nat) -> Seq<u8> {
    Seq::new((to - from) as nat, |i: int| stream_byte(seed, from + i as nat))
}

/// `StdRng::seed_from_u64`, and `fill_bytes` of `n` bytes from the fresh generator:
/// they are the first `n` bytes of a stream that depends on the seed alone.
#[verifier::external_body]
fn seeded_bytes(seed: u64, n: usize) -> (bytes: Vec<u8>)
    requires
        n <= isize::MAX,
    ensures
        bytes@ == Seq::new(n as nat, |i: int| stream_byte(seed, i as nat)),
{
    let mut bytes = vec![0u8; n];
    rand::rngs::StdRng::seed_from_u64(seed).fill_bytes(&mut bytes);
    bytes
}

/// A pair of keys, as hexadecimal text.
#[derive(Debug)]
pub struct KeyData {
    pub index: usize,
    pub public_key: String,
    pub private_key: String,
}

/// The keys of a seed.
#[derive(Debug)]
pub struct KeySet {
    pub seed: u64,
    pub count: usize,
    pub keys: Vec<KeyData>,
}

/// Key number `i` of a stream of bytes: 32 bytes for the public key, and the 64 that
/// follow for the private one.
pub open spec fn is_key(key: KeyData, bytes: Seq<u8>, i: int) -> bool {
    &&& key.index == i
    &&& key.public_key@ == hex_of(bytes.subrange(96 * i, 96 * i + 32))
    &&& key.private_key@ == hex_of(bytes.subrange(96 * i + 32, 96 * i + 96))
}

fn slice_hex(bytes: &[u8], from: usize, to: usize) -> (s: String)
    requires
        from <= to <= bytes@.len(),
    ensures
        s@ == hex_of(bytes@.subrange(from as int, to as int)),
{
    let mut part: Vec<u8> = Vec::new();
    let mut i: usize = from;
    while i < to
        invariant
            from <= i <= to <= bytes@.len(),
            part@ == bytes@.subrange(from as int, i as int),
        decreases to - i,
    {
        part.push(bytes[i]);
        i = i + 1;
    }
    encode(part.as_slice())
}

/// Cuts a stream of bytes into `count` pairs of keys.
pub fn keys_from_bytes(bytes: &[u8], count: usize) -> (keys: Vec<KeyData>)
    requires
        bytes@.len() == 96 * count,
    ensures
        keys@.len() == count,
        forall|i: int| 0 <= i < count ==> is_key(#[trigger] keys@[i], bytes@, i),
{
    let mut keys: Vec<KeyData> = Vec::new();
    let n: usize = bytes.len();
    let mut at: usize = 0;
    let mut i: usize = 0;
    while i < count
        invariant
            n == bytes@.len(),
            n == 96 * count,
            i <= count,
            at == 96 * i,
            keys@.len() == i,
            forall|k: int| 0 <= k < i ==> is_key(#[trigger] keys@[k], bytes@, k),
        decreases count - i,
    {
        let public_key = slice_hex(bytes, at, at + 32);
        let private_key = slice_hex(bytes, at + 32, at + 96);
        keys.push(KeyData { index: i, public_key, private_key });
        at = at + 96;
        i = i + 1;
    }
    keys
}

/// Generates `count` pairs of keys from a seed.
pub fn generate_keys(seed: u64, count: usize) -> (set: KeySet)
    requires
        96 * count <= isize::MAX,
    ensures
        set.seed == seed,
        set.count == count,
        set.keys@.len() == count,
        forall|i: int|
            0 <= i < count ==> is_key(
                #[trigger] set.keys@[i],
                stream(seed, 0, (96 * count) as nat),
                i,
            ),
{
    let bytes = seeded_bytes(seed, 96 * count);
    assert(bytes@ =~= stream(seed, 0, (96 * count) as nat));
    let keys = keys_from_bytes(bytes.as_slice(), count);
    KeySet { seed, count, keys }
}

/// Keys are reproducible: key `i` of a seed is the same however many keys are
/// generated with it.
pub proof fn law_keys_are_reproducible(seed: u64, m: nat, n: nat, i: int, a: KeyData, b: KeyData)
    requires
        0 <= i < m,
        i < n,
        is_key(a, stream(seed, 0, 96 * m), i),
        is_key(b, stream(seed, 0, 96 * n), i),
    ensures
        a.index == b.index,
        a.public_key@ == b.public_key@,
        a.private_key@ == b.private_key@,
{
    let (x, y) = (stream(seed, 0, 96 * m), stream(seed, 0, 96 * n));
    assert(x.subrange(96 * i, 96 * i + 32) =~= y.subrange(96 * i, 96 * i + 32));
    assert(x.subrange(96 * i + 32, 96 * i + 96) =~= y.subrange(96 * i + 32, 96 * i + 96));
}

/// The keys use up the stream, each byte once and in order: the two keys of a pair are the
/// text of the 96 bytes that follow those of the pairs before it, 32 for the public one.
pub proof fn law_keys_use_up_the_stream(key: KeyData, bytes: Seq<u8>, i: int)
    requires
        is_key(key, bytes, i),
        0 <= i,
        96 * i + 96 <= bytes.len(),
    ensures
        key.index == i,
        key.public_key@.len() == 64,
        key.private_key@.len() == 128,
        hex_of(bytes) == hex_of(bytes.take(96 * i)) + key.public_key@ + key.private_key@ + hex_of(
            bytes.skip(96 * i + 96),
        ),
{
    let (a, b) = (bytes.subrange(96 * i, 96 * i + 32), bytes.subrange(96 * i + 32, 96 * i + 96));
    let (front, back) = (bytes.take(96 * i), bytes.skip(96 * i + 96));
    assert(bytes =~= front + a + b + back);
    law_hex_is_bytewise(front + a + b, back);
    law_hex_is_bytewise(front + a, b);
    law_hex_is_bytewise(front, a);
    if a.len() > 0 && b.len() > 0 {
        law_hex_reads_back(a, 0);
        law_hex_reads_back(b, 0);
    }
}

/// A stream goes on where it stopped: two stretches of it that meet are one.
pub proof fn law_stream_goes_on(seed: u64, from: nat, at: nat, to: nat)
    requires
        from <= at <= to,
    ensures
        stream(seed, from, at) + stream(seed, at, to) == stream(seed, from, to),
        stream(seed, from, to).len() == to - from,
{
    assert(stream(seed, from, at) + stream(seed, at, to) =~= stream(seed, from, to));
}

} // verus!
