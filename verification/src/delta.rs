//! The frame delta format.
//!
//! Equal-length snapshots are stored as a change mask followed by only the
//! non-zero XOR bytes; because XOR is symmetric, the same blob moves one frame
//! backward. Snapshots of different lengths fall back to a full before/after
//! replacement record.
use vstd::prelude::*;
use vstd::slice::{slice_subrange, slice_to_vec};

use crate::error::TimelineError;

verus! {

/// Largest snapshot, in bytes, that the XOR encoding can describe.
pub const MAX_XOR_SNAPSHOT: usize = 65535;

/// Mode byte of an XOR delta.
pub const XOR_MODE: u8 = 0;

/// Mode byte of a replacement delta.
pub const REPLACEMENT_MODE: u8 = 1;

// ---------------------------------------------------------------------------
// The format, as mathematics
// ---------------------------------------------------------------------------

/// `n` as two little-endian bytes.
pub open spec fn le16(n: nat) -> Seq<u8> {
    seq![(n % 256) as u8, ((n / 256) % 256) as u8]
}

/// `n` as four little-endian bytes.
pub open spec fn le32(n: nat) -> Seq<u8> {
    seq![
        (n % 256) as u8,
        ((n / 256) % 256) as u8,
        ((n / 65536) % 256) as u8,
        ((n / 16777216) % 256) as u8,
    ]
}

/// The little-endian number held by the first two bytes of `s`.
pub open spec fn read_le16(s: Seq<u8>) -> nat {
    (s[0] + 256 * s[1]) as nat
}

/// The little-endian number held by the first four bytes of `s`.
pub open spec fn read_le32(s: Seq<u8>) -> nat {
    (s[0] + 256 * s[1] + 65536 * s[2] + 16777216 * s[3]) as nat
}

/// Number of mask bytes for a snapshot of `n` bytes: one bit per byte, rounded up.
pub open spec fn mask_len(n: nat) -> nat {
    (n + 7) / 8
}

/// Whether byte `i` differs between two snapshots; false outside the snapshot.
pub open spec fn differs(before: Seq<u8>, after: Seq<u8>, i: int) -> bool {
    0 <= i < before.len() && before[i] != after[i]
}

/// 1 for true, 0 for false.
pub open spec fn flag(b: bool) -> u8 {
    if b {
        1
    } else {
        0
    }
}

/// Mask byte `j`: bit `k` is set exactly when snapshot byte `8 * j + k` changed.
pub open spec fn mask_byte(before: Seq<u8>, after: Seq<u8>, j: int) -> u8 {
    flag(differs(before, after, 8 * j)) | flag(differs(before, after, 8 * j + 1)) << 1u8 | flag(
        differs(before, after, 8 * j + 2),
    ) << 2u8 | flag(differs(before, after, 8 * j + 3)) << 3u8 | flag(
        differs(before, after, 8 * j + 4),
    ) << 4u8 | flag(differs(before, after, 8 * j + 5)) << 5u8 | flag(
        differs(before, after, 8 * j + 6),
    ) << 6u8 | flag(differs(before, after, 8 * j + 7)) << 7u8
}

/// The change mask of two equal-length snapshots.
pub open spec fn change_mask(before: Seq<u8>, after: Seq<u8>) -> Seq<u8> {
    Seq::new(mask_len(before.len()), |j: int| mask_byte(before, after, j))
}

/// The XOR of each changed byte among the first `i`, in order.
pub open spec fn changed_values(before: Seq<u8>, after: Seq<u8>, i: nat) -> Seq<u8>
    decreases i,
{
    if i == 0 {
        seq![]
    } else {
        let earlier = changed_values(before, after, (i - 1) as nat);
        if differs(before, after, i - 1) {
            earlier.push(before[i - 1] ^ after[i - 1])
        } else {
            earlier
        }
    }
}

/// Whether two snapshots can be encoded at all.
pub open spec fn encodable(before: Seq<u8>, after: Seq<u8>) -> bool {
    if before.len() == after.len() {
        before.len() <= MAX_XOR_SNAPSHOT
    } else {
        before.len() <= u32::MAX && after.len() <= u32::MAX
    }
}

/// The delta that takes `after` back to `before`.
pub open spec fn spec_encode_delta(before: Seq<u8>, after: Seq<u8>) -> Result<
    Seq<u8>,
    TimelineError,
> {
    if !encodable(before, after) {
        Err(TimelineError::StateTooLarge)
    } else if before.len() == after.len() {
        Ok(
            seq![XOR_MODE] + le16(before.len()) + change_mask(before, after) + changed_values(
                before,
                after,
                before.len(),
            ),
        )
    } else {
        Ok(seq![REPLACEMENT_MODE] + le32(before.len()) + le32(after.len()) + before + after)
    }
}

/// Whether bit `i` (counted from the first byte's lowest bit) of a mask is set.
pub open spec fn mask_bit(mask: Seq<u8>, i: int) -> bool {
    (mask[i / 8] >> ((i % 8) as u8)) & 1u8 == 1u8
}

/// Number of set mask bits below bit `i`.
pub open spec fn rank(mask: Seq<u8>, i: nat) -> nat
    decreases i,
{
    if i == 0 {
        0
    } else {
        rank(mask, (i - 1) as nat) + if mask_bit(mask, i - 1) {
            1nat
        } else {
            0nat
        }
    }
}

/// Number of set bits among the lowest `k` bits of `byte`.
pub open spec fn ones_below(byte: u8, k: nat) -> nat
    decreases k,
{
    if k == 0 {
        0
    } else {
        ones_below(byte, (k - 1) as nat) + if (byte >> ((k - 1) as u8)) & 1u8 == 1u8 {
            1nat
        } else {
            0nat
        }
    }
}

/// Applying an XOR body (everything after the mode byte) to `current`.
pub open spec fn spec_apply_xor_delta(current: Seq<u8>, body: Seq<u8>) -> Result<
    Seq<u8>,
    TimelineError,
> {
    if body.len() < 2 {
        Err(TimelineError::InvalidDelta("missing snapshot length"))
    } else {
        let n = read_le16(body);
        let ml = mask_len(n);
        if current.len() != n {
            Err(TimelineError::InvalidDelta("snapshot length mismatch"))
        } else if body.len() < 2 + ml {
            Err(TimelineError::InvalidDelta("truncated change mask"))
        } else {
            let mask = body.subrange(2, 2 + ml as int);
            let values = body.subrange(2 + ml as int, body.len() as int);
            if values.len() != rank(mask, 8 * ml) {
                Err(TimelineError::InvalidDelta("change payload length mismatch"))
            } else {
                Ok(
                    Seq::new(
                        n,
                        |i: int|
                            if mask_bit(mask, i) {
                                current[i] ^ values[rank(mask, i as nat) as int]
                            } else {
                                current[i]
                            },
                    ),
                )
            }
        }
    }
}

/// Applying a replacement body (everything after the mode byte) to `current`.
pub open spec fn spec_apply_replacement_delta(current: Seq<u8>, body: Seq<u8>) -> Result<
    Seq<u8>,
    TimelineError,
> {
    if body.len() < 8 {
        Err(TimelineError::InvalidDelta("truncated replacement header"))
    } else {
        let before_len = read_le32(body);
        let after_len = read_le32(body.subrange(4, 8));
        if body.len() != 8 + before_len + after_len {
            Err(TimelineError::InvalidDelta("replacement length mismatch"))
        } else if current != body.subrange(8 + before_len as int, body.len() as int) {
            Err(TimelineError::InvalidDelta("replacement applied to wrong state"))
        } else {
            Ok(body.subrange(8, 8 + before_len as int))
        }
    }
}

/// Moving `current` one frame back through `delta`.
pub open spec fn spec_apply_delta_backwards(current: Seq<u8>, delta: Seq<u8>) -> Result<
    Seq<u8>,
    TimelineError,
> {
    if delta.len() == 0 {
        Err(TimelineError::InvalidDelta("empty blob"))
    } else if delta[0] == XOR_MODE {
        spec_apply_xor_delta(current, delta.drop_first())
    } else if delta[0] == REPLACEMENT_MODE {
        spec_apply_replacement_delta(current, delta.drop_first())
    } else {
        Err(TimelineError::InvalidDelta("unknown encoding"))
    }
}

/// The view of a byte result.
pub open spec fn bytes_result(result: Result<Vec<u8>, TimelineError>) -> Result<
    Seq<u8>,
    TimelineError,
> {
    match result {
        Ok(bytes) => Ok(bytes@),
        Err(error) => Err(error),
    }
}

// ---------------------------------------------------------------------------
// Lemmas
// ---------------------------------------------------------------------------

proof fn lemma_byte_bits(
    f0: u8,
    f1: u8,
    f2: u8,
    f3: u8,
    f4: u8,
    f5: u8,
    f6: u8,
    f7: u8,
    k: u8,
)
    requires
        f0 <= 1,
        f1 <= 1,
        f2 <= 1,
        f3 <= 1,
        f4 <= 1,
        f5 <= 1,
        f6 <= 1,
        f7 <= 1,
        k < 8,
    ensures
        ((f0 | f1 << 1u8 | f2 << 2u8 | f3 << 3u8 | f4 << 4u8 | f5 << 5u8 | f6 << 6u8 | f7 << 7u8)
            >> k) & 1u8 == if k == 0 {
            f0
        } else if k == 1 {
            f1
        } else if k == 2 {
            f2
        } else if k == 3 {
            f3
        } else if k == 4 {
            f4
        } else if k == 5 {
            f5
        } else if k == 6 {
            f6
        } else {
            f7
        },
{
    assert(((f0 | f1 << 1u8 | f2 << 2u8 | f3 << 3u8 | f4 << 4u8 | f5 << 5u8 | f6 << 6u8 | f7
        << 7u8) >> k) & 1u8 == if k == 0 {
        f0
    } else if k == 1 {
        f1
    } else if k == 2 {
        f2
    } else if k == 3 {
        f3
    } else if k == 4 {
        f4
    } else if k == 5 {
        f5
    } else if k == 6 {
        f6
    } else {
        f7
    }) by (bit_vector)
        requires
            f0 <= 1,
            f1 <= 1,
            f2 <= 1,
            f3 <= 1,
            f4 <= 1,
            f5 <= 1,
            f6 <= 1,
            f7 <= 1,
            k < 8,
    ;
}

/// Bit `i` of the change mask is set exactly when byte `i` changed.
proof fn lemma_change_mask_bit(before: Seq<u8>, after: Seq<u8>, i: int)
    requires
        0 <= i < 8 * mask_len(before.len()),
    ensures
        mask_bit(change_mask(before, after), i) == differs(before, after, i),
{
    let j = i / 8;
    let k = i % 8;
    assert(8 * j + k == i);
    assert(0 <= j < mask_len(before.len()));
    let f0 = flag(differs(before, after, 8 * j));
    let f1 = flag(differs(before, after, 8 * j + 1));
    let f2 = flag(differs(before, after, 8 * j + 2));
    let f3 = flag(differs(before, after, 8 * j + 3));
    let f4 = flag(differs(before, after, 8 * j + 4));
    let f5 = flag(differs(before, after, 8 * j + 5));
    let f6 = flag(differs(before, after, 8 * j + 6));
    let f7 = flag(differs(before, after, 8 * j + 7));
    lemma_byte_bits(f0, f1, f2, f3, f4, f5, f6, f7, k as u8);
    assert(change_mask(before, after)[j] == mask_byte(before, after, j));
}

/// Past the end of the snapshot, no further values are recorded.
proof fn lemma_changed_values_stable(before: Seq<u8>, after: Seq<u8>, i: nat)
    requires
        i >= before.len(),
    ensures
        changed_values(before, after, i) == changed_values(before, after, before.len()),
    decreases i,
{
    if i > before.len() {
        lemma_changed_values_stable(before, after, (i - 1) as nat);
    }
}

/// The rank of the change mask counts the changed bytes.
proof fn lemma_change_mask_rank(before: Seq<u8>, after: Seq<u8>, i: nat)
    requires
        i <= 8 * mask_len(before.len()),
    ensures
        rank(change_mask(before, after), i) == changed_values(before, after, i).len(),
    decreases i,
{
    if i > 0 {
        lemma_change_mask_rank(before, after, (i - 1) as nat);
        lemma_change_mask_bit(before, after, i - 1);
    }
}

/// The value recorded for a changed byte sits at that byte's rank.
proof fn lemma_changed_value_at(before: Seq<u8>, after: Seq<u8>, i: nat, m: nat)
    requires
        i < m,
        differs(before, after, i as int),
    ensures
        changed_values(before, after, i).len() < changed_values(before, after, m).len(),
        changed_values(before, after, m)[changed_values(before, after, i).len() as int]
            == before[i as int] ^ after[i as int],
    decreases m,
{
    if m > i + 1 {
        lemma_changed_value_at(before, after, i, (m - 1) as nat);
    }
}

/// Ranks never decrease.
proof fn lemma_rank_monotone(mask: Seq<u8>, i: nat, j: nat)
    requires
        i <= j,
    ensures
        rank(mask, i) <= rank(mask, j),
    decreases j,
{
    if i < j {
        lemma_rank_monotone(mask, i, (j - 1) as nat);
    }
}

/// The rank grows by the number of set bits of each whole mask byte.
proof fn lemma_rank_byte(mask: Seq<u8>, j: nat, k: nat)
    requires
        k <= 8,
    ensures
        rank(mask, 8 * j + k) == rank(mask, 8 * j) + ones_below(mask[j as int], k),
    decreases k,
{
    if k > 0 {
        lemma_rank_byte(mask, j, (k - 1) as nat);
        let i = 8 * j + k - 1;
        assert(i / 8 == j);
        assert(i % 8 == k - 1);
    }
}

proof fn lemma_xor_back(before: u8, after: u8)
    ensures
        after ^ (before ^ after) == before,
{
    assert(after ^ (before ^ after) == before) by (bit_vector);
}

proof fn lemma_le16_round_trip(n: nat)
    requires
        n <= 65535,
    ensures
        read_le16(le16(n)) == n,
{
    let s = le16(n);
    assert(s[0] == n % 256);
    assert(s[1] == n / 256);
}

pub(crate) proof fn lemma_le32_round_trip(n: nat)
    requires
        n <= u32::MAX,
    ensures
        read_le32(le32(n)) == n,
{
    let s = le32(n);
    let a = n % 256;
    let q1 = n / 256;
    let b = q1 % 256;
    let q2 = q1 / 256;
    let c = q2 % 256;
    let d = q2 / 256;
    assert(n == a + 256 * q1);
    assert(q1 == b + 256 * q2);
    assert(q2 == c + 256 * d);
    assert(d < 256);
    assert(n / 65536 == q2) by {
        vstd::arithmetic::div_mod::lemma_div_denominator(n as int, 256, 256);
    }
    assert(n / 16777216 == d) by {
        vstd::arithmetic::div_mod::lemma_div_denominator(n as int, 65536, 256);
    }
    assert(s[0] == a);
    assert(s[1] == b);
    assert(s[2] == c);
    assert(s[3] == d);
}

proof fn lemma_xor_round_trip(before: Seq<u8>, after: Seq<u8>)
    requires
        before.len() == after.len(),
        before.len() <= MAX_XOR_SNAPSHOT,
    ensures
        spec_apply_xor_delta(after, spec_encode_delta(before, after)->Ok_0.drop_first()) == Ok::<
            Seq<u8>,
            TimelineError,
        >(before),
{
    let body = spec_encode_delta(before, after)->Ok_0.drop_first();
    let n = before.len();
    let ml = mask_len(n);
    let mask = change_mask(before, after);
    let values = changed_values(before, after, n);
    assert(body =~= le16(n) + mask + values);
    assert(read_le16(body) == n) by {
        lemma_le16_round_trip(n);
        assert(body[0] == le16(n)[0]);
        assert(body[1] == le16(n)[1]);
    }
    assert(body.subrange(2, 2 + ml as int) =~= mask);
    assert(body.subrange(2 + ml as int, body.len() as int) =~= values);
    lemma_change_mask_rank(before, after, 8 * ml);
    lemma_changed_values_stable(before, after, 8 * ml);
    let restored = Seq::new(
        n,
        |i: int|
            if mask_bit(mask, i) {
                after[i] ^ values[rank(mask, i as nat) as int]
            } else {
                after[i]
            },
    );
    assert forall|i: int| 0 <= i < n implies restored[i] == before[i] by {
        lemma_change_mask_bit(before, after, i);
        if differs(before, after, i) {
            lemma_change_mask_rank(before, after, i as nat);
            lemma_changed_value_at(before, after, i as nat, n);
            lemma_xor_back(before[i], after[i]);
        }
    }
    assert(restored =~= before);
}

proof fn lemma_replacement_layout(before: Seq<u8>, after: Seq<u8>)
    requires
        before.len() != after.len(),
        before.len() <= u32::MAX,
        after.len() <= u32::MAX,
    ensures
        ({
            let body = spec_encode_delta(before, after)->Ok_0.drop_first();
            &&& body.len() == 8 + before.len() + after.len()
            &&& read_le32(body) == before.len()
            &&& read_le32(body.subrange(4, 8)) == after.len()
            &&& body.subrange(8, 8 + before.len() as int) == before
            &&& body.subrange(8 + before.len() as int, body.len() as int) == after
        }),
{
    let body = spec_encode_delta(before, after)->Ok_0.drop_first();
    let bl = before.len();
    let al = after.len();
    assert(body =~= le32(bl) + le32(al) + before + after);
    lemma_le32_round_trip(bl);
    lemma_le32_round_trip(al);
    assert(body.subrange(0, 4) =~= le32(bl));
    assert(body[0] == le32(bl)[0] && body[1] == le32(bl)[1] && body[2] == le32(bl)[2] && body[3]
        == le32(bl)[3]);
    assert(body.subrange(4, 8) =~= le32(al));
    assert(body.subrange(8, 8 + bl as int) =~= before);
    assert(body.subrange(8 + bl as int, body.len() as int) =~= after);
}

/// Law: applying the delta of two encodable snapshots to the later one gives
/// back the earlier one.
pub proof fn lemma_delta_round_trip(before: Seq<u8>, after: Seq<u8>)
    requires
        encodable(before, after),
    ensures
        spec_encode_delta(before, after) is Ok,
        spec_apply_delta_backwards(after, spec_encode_delta(before, after)->Ok_0) == Ok::<
            Seq<u8>,
            TimelineError,
        >(before),
{
    if before.len() == after.len() {
        lemma_xor_round_trip(before, after);
    } else {
        lemma_replacement_layout(before, after);
    }
}

/// Law: a replacement delta refuses any state other than the one it was made from.
pub proof fn lemma_replacement_rejects_other_states(
    before: Seq<u8>,
    after: Seq<u8>,
    other: Seq<u8>,
)
    requires
        encodable(before, after),
        before.len() != after.len(),
        other != after,
    ensures
        spec_apply_delta_backwards(other, spec_encode_delta(before, after)->Ok_0) is Err,
{
    lemma_replacement_layout(before, after);
}

/// Law: an unchanged frame's delta depends only on the snapshot's length, so
/// every idle frame of one state produces the same delta bytes.
pub proof fn lemma_idle_delta_depends_only_on_length(first: Seq<u8>, second: Seq<u8>)
    requires
        first.len() == second.len(),
    ensures
        spec_encode_delta(first, first) == spec_encode_delta(second, second),
{
    assert(change_mask(first, first) =~= change_mask(second, second)) by {
        assert forall|j: int| 0 <= j < mask_len(first.len()) implies mask_byte(first, first, j)
            == mask_byte(second, second, j) by {}
    }
    lemma_no_changes(first, first.len());
    lemma_no_changes(second, second.len());
}

proof fn lemma_changed_values_symmetric(a: Seq<u8>, b: Seq<u8>, i: nat)
    requires
        a.len() == b.len(),
        i <= a.len(),
    ensures
        changed_values(a, b, i) == changed_values(b, a, i),
    decreases i,
{
    if i > 0 {
        lemma_changed_values_symmetric(a, b, (i - 1) as nat);
        let x = a[i - 1];
        let y = b[i - 1];
        assert(x ^ y == y ^ x) by (bit_vector);
    }
}

/// Law: the XOR delta is symmetric. For equal-length snapshots the delta
/// from `a` to `b` is the delta from `b` to `a`, so the one blob moves either
/// snapshot to the other.
pub proof fn lemma_delta_symmetry(a: Seq<u8>, b: Seq<u8>)
    requires
        a.len() == b.len(),
        a.len() <= MAX_XOR_SNAPSHOT,
    ensures
        spec_encode_delta(a, b) == spec_encode_delta(b, a),
        spec_apply_delta_backwards(b, spec_encode_delta(a, b)->Ok_0) == Ok::<Seq<u8>, TimelineError>(
            a,
        ),
        spec_apply_delta_backwards(a, spec_encode_delta(a, b)->Ok_0) == Ok::<Seq<u8>, TimelineError>(
            b,
        ),
{
    assert(change_mask(a, b) =~= change_mask(b, a)) by {
        assert forall|j: int| 0 <= j < mask_len(a.len()) implies mask_byte(a, b, j) == mask_byte(
            b,
            a,
            j,
        ) by {
            assert forall|k: int| #![auto] differs(a, b, k) == differs(b, a, k) by {}
        }
    }
    lemma_changed_values_symmetric(a, b, a.len());
    lemma_delta_round_trip(a, b);
    lemma_delta_round_trip(b, a);
}

proof fn lemma_no_changes(s: Seq<u8>, i: nat)
    ensures
        changed_values(s, s, i) == Seq::<u8>::empty(),
    decreases i,
{
    if i > 0 {
        lemma_no_changes(s, (i - 1) as nat);
    }
}

/// The lowest `k` bits of mask byte `j`, as the encoder builds it up.
spec fn byte_prefix(before: Seq<u8>, after: Seq<u8>, j: int, k: nat) -> u8
    decreases k,
{
    if k == 0 {
        0
    } else {
        byte_prefix(before, after, j, (k - 1) as nat) | flag(differs(before, after, 8 * j + k - 1))
            << ((k - 1) as u8)
    }
}

proof fn lemma_byte_prefix_step(before: Seq<u8>, after: Seq<u8>, j: int, k: nat)
    requires
        k < 8,
    ensures
        byte_prefix(before, after, j, k + 1) == if differs(before, after, 8 * j + k) {
            byte_prefix(before, after, j, k) | (1u8 << (k as u8))
        } else {
            byte_prefix(before, after, j, k)
        },
{
    let x = byte_prefix(before, after, j, k);
    let kk = k as u8;
    assert(x | (0u8 << kk) == x) by (bit_vector);
}

proof fn lemma_byte_prefix_full(before: Seq<u8>, after: Seq<u8>, j: int)
    ensures
        byte_prefix(before, after, j, 8) == mask_byte(before, after, j),
{
    reveal_with_fuel(byte_prefix, 9);
    let f0 = flag(differs(before, after, 8 * j));
    let f1 = flag(differs(before, after, 8 * j + 1));
    let f2 = flag(differs(before, after, 8 * j + 2));
    let f3 = flag(differs(before, after, 8 * j + 3));
    let f4 = flag(differs(before, after, 8 * j + 4));
    let f5 = flag(differs(before, after, 8 * j + 5));
    let f6 = flag(differs(before, after, 8 * j + 6));
    let f7 = flag(differs(before, after, 8 * j + 7));
    assert(byte_prefix(before, after, j, 8) == (((((((0u8 | f0 << 0u8) | f1 << 1u8) | f2 << 2u8)
        | f3 << 3u8) | f4 << 4u8) | f5 << 5u8) | f6 << 6u8) | f7 << 7u8);
    assert((((((((0u8 | f0 << 0u8) | f1 << 1u8) | f2 << 2u8) | f3 << 3u8) | f4 << 4u8) | f5 << 5u8)
        | f6 << 6u8) | f7 << 7u8 == f0 | f1 << 1u8 | f2 << 2u8 | f3 << 3u8 | f4 << 4u8 | f5 << 5u8
        | f6 << 6u8 | f7 << 7u8) by (bit_vector);
}

// ---------------------------------------------------------------------------
// Executable codec
// ---------------------------------------------------------------------------

/// Appends every byte of `bytes` to `out`.
pub(crate) fn push_all(out: &mut Vec<u8>, bytes: &[u8])
    ensures
        final(out)@ == old(out)@ + bytes@,
{
    let mut i: usize = 0;
    while i < bytes.len()
        invariant
            i <= bytes@.len(),
            out@ == old(out)@ + bytes@.subrange(0, i as int),
        decreases bytes@.len() - i,
    {
        out.push(bytes[i]);
        i += 1;
        assert(bytes@.subrange(0, i as int) == bytes@.subrange(0, i - 1).push(bytes@[i - 1]));
    }
    assert(bytes@.subrange(0, i as int) =~= bytes@);
}

/// Whether two byte strings are equal.
pub fn bytes_equal(left: &[u8], right: &[u8]) -> (equal: bool)
    ensures
        equal == (left@ == right@),
{
    if left.len() != right.len() {
        return false;
    }
    let mut i: usize = 0;
    while i < left.len()
        invariant
            i <= left@.len(),
            left@.len() == right@.len(),
            forall|k: int| 0 <= k < i ==> left@[k] == right@[k],
        decreases left@.len() - i,
    {
        if left[i] != right[i] {
            return false;
        }
        i += 1;
    }
    assert(left@ =~= right@);
    true
}

/// Number of set bits in a byte.
pub fn count_ones(byte: u8) -> (count: u32)
    ensures
        count == ones_below(byte, 8),
{
    let mut count: u32 = 0;
    let mut k: u8 = 0;
    while k < 8
        invariant
            k <= 8,
            count == ones_below(byte, k as nat),
            count <= k,
        decreases 8 - k,
    {
        if (byte >> k) & 1u8 == 1u8 {
            count += 1;
        }
        k += 1;
    }
    count
}

/// Encodes the delta that takes `after` back to `before`.
pub fn encode_delta(before: &[u8], after: &[u8]) -> (result: Result<Vec<u8>, TimelineError>)
    ensures
        bytes_result(result) == spec_encode_delta(before@, after@),
{
    let n = before.len();
    if n == after.len() {
        if n > MAX_XOR_SNAPSHOT {
            return Err(TimelineError::StateTooLarge);
        }
        let ml = (n + 7) / 8;
        let mut mask: Vec<u8> = Vec::new();
        let mut changed: Vec<u8> = Vec::new();
        let mut j: usize = 0;
        while j < ml
            invariant
                n == before@.len(),
                n == after@.len(),
                n <= MAX_XOR_SNAPSHOT,
                ml == mask_len(n as nat),
                j <= ml,
                mask@ == change_mask(before@, after@).subrange(0, j as int),
                changed@ == changed_values(before@, after@, (8 * j) as nat),
            decreases ml - j,
        {
            let mut byte: u8 = 0;
            let mut k: usize = 0;
            while k < 8
                invariant
                    n == before@.len(),
                    n == after@.len(),
                    n <= MAX_XOR_SNAPSHOT,
                    ml == mask_len(n as nat),
                    j < ml,
                    k <= 8,
                    byte_prefix(before@, after@, j as int, k as nat) == byte,
                    changed@ == changed_values(before@, after@, (8 * j + k) as nat),
                decreases 8 - k,
            {
                let index = 8 * j + k;
                if index < n && before[index] != after[index] {
                    byte = byte | (1u8 << (k as u8));
                    changed.push(before[index] ^ after[index]);
                }
                proof {
                    lemma_byte_prefix_step(before@, after@, j as int, k as nat);
                }
                k += 1;
            }
            proof {
                lemma_byte_prefix_full(before@, after@, j as int);
            }
            mask.push(byte);
            j += 1;
            assert(mask@ =~= change_mask(before@, after@).subrange(0, j as int));
        }
        proof {
            lemma_changed_values_stable(before@, after@, (8 * ml) as nat);
            assert(mask@ =~= change_mask(before@, after@));
        }
        let mut encoded: Vec<u8> = Vec::new();
        encoded.push(XOR_MODE);
        encoded.push((n % 256) as u8);
        encoded.push((n / 256) as u8);
        push_all(&mut encoded, mask.as_slice());
        push_all(&mut encoded, changed.as_slice());
        assert(encoded@ =~= seq![XOR_MODE] + le16(n as nat) + change_mask(before@, after@)
            + changed_values(before@, after@, n as nat));
        return Ok(encoded);
    }
    if n > u32::MAX as usize || after.len() > u32::MAX as usize {
        return Err(TimelineError::StateTooLarge);
    }
    let mut encoded: Vec<u8> = Vec::new();
    encoded.push(REPLACEMENT_MODE);
    push_le32(&mut encoded, n);
    push_le32(&mut encoded, after.len());
    push_all(&mut encoded, before);
    push_all(&mut encoded, after);
    assert(encoded@ =~= seq![REPLACEMENT_MODE] + le32(n as nat) + le32(after@.len()) + before@
        + after@);
    Ok(encoded)
}

/// Appends `n` as four little-endian bytes.
pub(crate) fn push_le32(out: &mut Vec<u8>, n: usize)
    requires
        n <= u32::MAX,
    ensures
        final(out)@ == old(out)@ + le32(n as nat),
{
    out.push((n % 256) as u8);
    out.push(((n / 256) % 256) as u8);
    out.push(((n / 65536) % 256) as u8);
    out.push(((n / 16777216) % 256) as u8);
    assert(final(out)@ =~= old(out)@ + le32(n as nat));
}

proof fn lemma_mask_test(byte: u8, k: u8)
    requires
        k < 8,
    ensures
        (byte & (1u8 << k) != 0) == ((byte >> k) & 1u8 == 1u8),
{
    assert((byte & (1u8 << k) != 0) == ((byte >> k) & 1u8 == 1u8)) by (bit_vector)
        requires
            k < 8,
    ;
}

/// Applies an XOR body (everything after the mode byte) to `current`.
pub fn apply_xor_delta(current: &[u8], delta: &[u8]) -> (result: Result<Vec<u8>, TimelineError>)
    ensures
        bytes_result(result) == spec_apply_xor_delta(current@, delta@),
{
    if delta.len() < 2 {
        return Err(TimelineError::InvalidDelta("missing snapshot length"));
    }
    let state_len = delta[0] as usize + 256 * delta[1] as usize;
    if current.len() != state_len {
        return Err(TimelineError::InvalidDelta("snapshot length mismatch"));
    }
    let mask_len = (state_len + 7) / 8;
    if delta.len() < 2 + mask_len {
        return Err(TimelineError::InvalidDelta("truncated change mask"));
    }
    let mask = slice_subrange(delta, 2, 2 + mask_len);
    let values = slice_subrange(delta, 2 + mask_len, delta.len());
    let mut expected_values: usize = 0;
    let mut j: usize = 0;
    while j < mask_len
        invariant
            j <= mask_len,
            mask@.len() == mask_len,
            mask_len <= 8192,
            expected_values == rank(mask@, (8 * j) as nat),
            expected_values <= 8 * j,
        decreases mask_len - j,
    {
        proof {
            lemma_rank_byte(mask@, j as nat, 8);
        }
        let ones = count_ones(mask[j]);
        proof {
            assert(ones_below(mask@[j as int], 8) <= 8) by {
                lemma_ones_bounded(mask@[j as int], 8);
            }
        }
        expected_values = expected_values + ones as usize;
        j += 1;
    }
    if values.len() != expected_values {
        return Err(TimelineError::InvalidDelta("change payload length mismatch"));
    }
    let ghost restored_spec = spec_apply_xor_delta(current@, delta@)->Ok_0;
    let mut restored = slice_to_vec(current);
    let mut value_index: usize = 0;
    let mut index: usize = 0;
    while index < state_len
        invariant
            index <= state_len,
            state_len == current@.len(),
            mask_len == (state_len as nat + 7) / 8,
            mask@ == delta@.subrange(2, 2 + mask_len as int),
            values@ == delta@.subrange(2 + mask_len as int, delta@.len() as int),
            values@.len() == rank(mask@, (8 * mask_len) as nat),
            state_len <= 8 * mask_len,
            restored_spec == spec_apply_xor_delta(current@, delta@)->Ok_0,
            spec_apply_xor_delta(current@, delta@) is Ok,
            restored@.len() == state_len,
            value_index == rank(mask@, index as nat),
            forall|i: int| 0 <= i < index ==> restored@[i] == restored_spec[i],
            forall|i: int| index <= i < state_len ==> restored@[i] == current@[i],
        decreases state_len - index,
    {
        let bit = (index % 8) as u8;
        proof {
            lemma_mask_test(mask@[index as int / 8], bit);
        }
        if mask[index / 8] & (1u8 << bit) != 0 {
            proof {
                lemma_rank_monotone(mask@, (index + 1) as nat, (8 * mask_len) as nat);
            }
            let value = values[value_index];
            let updated = restored[index] ^ value;
            restored.set(index, updated);
            value_index += 1;
        }
        index += 1;
    }
    assert(restored@ =~= restored_spec);
    Ok(restored)
}

proof fn lemma_ones_bounded(byte: u8, k: nat)
    ensures
        ones_below(byte, k) <= k,
    decreases k,
{
    if k > 0 {
        lemma_ones_bounded(byte, (k - 1) as nat);
    }
}

/// Applies a replacement body (everything after the mode byte) to `current`.
pub fn apply_replacement_delta(current: &[u8], delta: &[u8]) -> (result: Result<
    Vec<u8>,
    TimelineError,
>)
    ensures
        bytes_result(result) == spec_apply_replacement_delta(current@, delta@),
{
    if delta.len() < 8 {
        return Err(TimelineError::InvalidDelta("truncated replacement header"));
    }
    let before_len = read_u32_le(delta, 0);
    let after_len = read_u32_le(delta, 4);
    proof {
        assert(delta@.subrange(4, 8)[0] == delta@[4]);
        assert(delta@.subrange(4, 8)[1] == delta@[5]);
        assert(delta@.subrange(4, 8)[2] == delta@[6]);
        assert(delta@.subrange(4, 8)[3] == delta@[7]);
    }
    let rest = delta.len() - 8;
    if before_len > rest || after_len != rest - before_len {
        return Err(TimelineError::InvalidDelta("replacement length mismatch"));
    }
    let before = slice_subrange(delta, 8, 8 + before_len);
    let after = slice_subrange(delta, 8 + before_len, delta.len());
    if !bytes_equal(current, after) {
        return Err(TimelineError::InvalidDelta("replacement applied to wrong state"));
    }
    Ok(slice_to_vec(before))
}

/// The little-endian number held by four bytes of `bytes` starting at `at`.
fn read_u32_le(bytes: &[u8], at: usize) -> (n: usize)
    requires
        at + 4 <= bytes@.len(),
    ensures
        n == read_le32(bytes@.subrange(at as int, at + 4)),
{
    bytes[at] as usize + 256 * bytes[at + 1] as usize + 65536 * bytes[at + 2] as usize + 16777216
        * bytes[at + 3] as usize
}

/// Moves `current` one frame back through `delta`.
pub fn apply_delta_backwards(current: &[u8], delta: &[u8]) -> (result: Result<
    Vec<u8>,
    TimelineError,
>)
    ensures
        bytes_result(result) == spec_apply_delta_backwards(current@, delta@),
{
    if delta.len() == 0 {
        return Err(TimelineError::InvalidDelta("empty blob"));
    }
    let mode = delta[0];
    let body = slice_subrange(delta, 1, delta.len());
    assert(body@ =~= delta@.drop_first());
    if mode == XOR_MODE {
        apply_xor_delta(current, body)
    } else if mode == REPLACEMENT_MODE {
        apply_replacement_delta(current, body)
    } else {
        Err(TimelineError::InvalidDelta("unknown encoding"))
    }
}

} // verus!
