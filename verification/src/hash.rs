//! Content identifiers for stored blobs.
use vstd::prelude::*;

use crate::delta::push_all;

verus! {

/// The BLAKE3 digest of `input`, as `blake3::hash` computes it.
pub uninterp spec fn blake3_digest(input: Seq<u8>) -> Seq<u8>;

/// Calls `blake3::hash` and hands back the 32 digest bytes.
///
/// Trusted: BLAKE3 is a fixed function of its input, so the result is stated
/// to be `blake3_digest` of the input bytes; nothing else about the digest is
/// claimed.
#[verifier::external_body]
fn blake3_hash(input: &[u8]) -> (digest: [u8; 32])
    ensures
        digest@ == blake3_digest(input@),
{
    *blake3::hash(input).as_bytes()
}

/// What a stored blob holds.
#[derive(Clone, Copy, Debug, PartialEq, Eq, Structural)]
pub enum BlobKind {
    /// A full snapshot.
    Checkpoint,
    /// An encoded frame delta.
    Delta,
}

/// The byte that tags a blob's kind in its hash input.
pub open spec fn kind_tag(kind: BlobKind) -> u8 {
    match kind {
        BlobKind::Checkpoint => 1,
        BlobKind::Delta => 2,
    }
}

fn kind_byte(kind: BlobKind) -> (tag: u8)
    ensures
        tag == kind_tag(kind),
{
    match kind {
        BlobKind::Checkpoint => 1,
        BlobKind::Delta => 2,
    }
}

/// `256` to the power `k`.
pub open spec fn pow256(k: nat) -> nat
    decreases k,
{
    if k == 0 {
        1
    } else {
        256 * pow256((k - 1) as nat)
    }
}

/// The first `k` bytes of `bytes` read as one big-endian number.
pub open spec fn prefix_value(bytes: Seq<u8>, k: nat) -> nat
    decreases k,
{
    if k == 0 {
        0
    } else {
        prefix_value(bytes, (k - 1) as nat) * 256 + bytes[k - 1] as nat
    }
}

/// Number of digest bytes that make up a content identifier.
pub const ID_BYTES: usize = 16;

/// The content identifier of a blob: the first sixteen bytes of the BLAKE3
/// digest of its kind tag followed by its bytes.
pub open spec fn blob_id(kind: BlobKind, bytes: Seq<u8>) -> u128 {
    prefix_value(blake3_digest(seq![kind_tag(kind)] + bytes), ID_BYTES as nat) as u128
}

proof fn lemma_prefix_value_bound(bytes: Seq<u8>, k: nat)
    ensures
        prefix_value(bytes, k) < pow256(k),
    decreases k,
{
    if k > 0 {
        lemma_prefix_value_bound(bytes, (k - 1) as nat);
        let v = prefix_value(bytes, (k - 1) as nat);
        let p = pow256((k - 1) as nat);
        let b = bytes[k - 1] as nat;
        assert(v * 256 + b < 256 * p) by (nonlinear_arith)
            requires
                v < p,
                b < 256,
        ;
    }
}

/// Computes the content identifier of a blob.
pub fn blob_id_for(kind: BlobKind, bytes: &[u8]) -> (id: u128)
    ensures
        id == blob_id(kind, bytes@),
{
    let mut input: Vec<u8> = Vec::new();
    input.push(kind_byte(kind));
    push_all(&mut input, bytes);
    assert(input@ =~= seq![kind_tag(kind)] + bytes@);
    let digest = blake3_hash(input.as_slice());
    let mut id: u128 = 0;
    let mut i: usize = 0;
    proof {
        reveal_with_fuel(pow256, 17);
    }
    assert(pow256(16) == 0x1_0000_0000_0000_0000_0000_0000_0000_0000);
    while i < ID_BYTES
        invariant
            i <= ID_BYTES,
            digest@ == blake3_digest(input@),
            id == prefix_value(digest@, i as nat),
            pow256(16) == 0x1_0000_0000_0000_0000_0000_0000_0000_0000,
        decreases ID_BYTES - i,
    {
        proof {
            lemma_prefix_value_bound(digest@, (i + 1) as nat);
            lemma_pow256_monotone((i + 1) as nat, 16);
        }
        id = id * 256 + digest[i] as u128;
        i += 1;
    }
    id
}

proof fn lemma_pow256_monotone(a: nat, b: nat)
    requires
        a <= b,
    ensures
        pow256(a) <= pow256(b),
    decreases b,
{
    if a < b {
        lemma_pow256_monotone(a, (b - 1) as nat);
    }
}

} // verus!
