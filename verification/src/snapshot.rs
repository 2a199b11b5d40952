//! The byte layout of a game-state snapshot.
//!
//! A snapshot holds the player's eight floating-point fields, each as the
//! four little-endian bytes of its IEEE-754 bit pattern, followed by the
//! `grounded` and `completed` flags as one byte each. The library works on
//! the bit patterns; turning them into floats is left to the caller.
use vstd::prelude::*;

use crate::delta::{flag, le32, lemma_le32_round_trip, push_le32, read_le32};
use crate::text::{decimal, push_decimal};
use crate::timeline::SnapshotState;

verus! {

/// Number of floating-point fields in a snapshot.
pub const SNAPSHOT_WORDS: usize = 8;

/// Length in bytes of an encoded snapshot.
pub const SNAPSHOT_LEN: usize = 34;

/// The contents of a snapshot: the bit patterns of the player's position x
/// and y, velocity x and y, facing, animation phase, coyote timer and jump
/// buffer, in that order, and the two flags.
#[derive(Clone, Copy, Debug, PartialEq, Eq)]
pub struct SnapshotRecord {
    pub words: [u32; 8],
    pub grounded: bool,
    pub completed: bool,
}

/// Why a byte string is not a snapshot.
#[derive(Clone, Copy, Debug, PartialEq, Eq, Structural)]
pub enum SnapshotError {
    /// The string is not [`SNAPSHOT_LEN`] bytes long.
    WrongLength { found: usize },
    /// One of the eight fields is an infinity or a NaN.
    NonFinite,
    /// A flag byte is neither 0 nor 1.
    InvalidBoolean,
}

/// Whether a 32-bit pattern is a finite IEEE-754 single: its eight exponent
/// bits are not all ones.
pub open spec fn is_finite_bits(bits: u32) -> bool {
    (bits / 0x80_0000) % 0x100 != 0xff
}

/// The words, each as four little-endian bytes, one after another.
pub open spec fn words_bytes(words: Seq<u32>) -> Seq<u8>
    decreases words.len(),
{
    if words.len() == 0 {
        Seq::empty()
    } else {
        words_bytes(words.drop_last()) + le32(words.last() as nat)
    }
}

/// The encoding of a record.
pub open spec fn snapshot_bytes(record: SnapshotRecord) -> Seq<u8> {
    words_bytes(record.words@) + seq![flag(record.grounded), flag(record.completed)]
}

/// The word held by bytes `4 * i .. 4 * i + 4`.
pub open spec fn word_at(bytes: Seq<u8>, i: int) -> nat {
    read_le32(bytes.subrange(4 * i, 4 * i + 4))
}

/// Whether every word of a snapshot-length string is finite.
pub open spec fn words_finite(bytes: Seq<u8>) -> bool {
    forall|i: int| 0 <= i < 8 ==> is_finite_bits(#[trigger] word_at(bytes, i) as u32)
}

/// Whether the flag bytes of a snapshot-length string are each 0 or 1.
pub open spec fn flags_valid(bytes: Seq<u8>) -> bool {
    bytes[32] <= 1 && bytes[33] <= 1
}

/// Whether `bytes` is the encoding of a snapshot.
pub open spec fn snapshot_valid(bytes: Seq<u8>) -> bool {
    bytes.len() == 34 && words_finite(bytes) && flags_valid(bytes)
}

/// Whether `bytes` is a valid snapshot whose fields are those of `record`.
pub open spec fn decodes_to(bytes: Seq<u8>, record: SnapshotRecord) -> bool {
    &&& snapshot_valid(bytes)
    &&& forall|i: int| 0 <= i < 8 ==> record.words[i] == #[trigger] word_at(bytes, i)
    &&& record.grounded == (bytes[32] != 0)
    &&& record.completed == (bytes[33] != 0)
}

/// What decoding `bytes` gives back, given the record that a valid string
/// decodes to.
pub open spec fn decode_outcome(bytes: Seq<u8>, result: Result<SnapshotRecord, SnapshotError>) -> bool {
    match result {
        Ok(record) => decodes_to(bytes, record),
        Err(SnapshotError::WrongLength { found }) => bytes.len() != 34 && found == bytes.len(),
        Err(SnapshotError::NonFinite) => bytes.len() == 34 && !words_finite(bytes),
        Err(SnapshotError::InvalidBoolean) => bytes.len() == 34 && words_finite(bytes)
            && !flags_valid(bytes),
    }
}

proof fn lemma_words_bytes_len(words: Seq<u32>)
    ensures
        words_bytes(words).len() == 4 * words.len(),
    decreases words.len(),
{
    if words.len() > 0 {
        lemma_words_bytes_len(words.drop_last());
    }
}

/// Word `i` of the encoding of `words` is `words[i]`.
proof fn lemma_words_bytes_word(words: Seq<u32>, i: int)
    requires
        0 <= i < words.len(),
    ensures
        words_bytes(words).subrange(4 * i, 4 * i + 4) == le32(words[i] as nat),
    decreases words.len(),
{
    let prefix = words.drop_last();
    lemma_words_bytes_len(prefix);
    if i == words.len() - 1 {
        assert(words_bytes(words).subrange(4 * i, 4 * i + 4) =~= le32(words[i] as nat));
    } else {
        lemma_words_bytes_word(prefix, i);
        assert(words_bytes(words).subrange(4 * i, 4 * i + 4) =~= words_bytes(prefix).subrange(
            4 * i,
            4 * i + 4,
        ));
    }
}

/// Four bytes read as a little-endian word and written back are the same bytes.
proof fn lemma_read_le32_round_trip(s: Seq<u8>)
    requires
        s.len() == 4,
    ensures
        le32(read_le32(s)) == s,
        read_le32(s) <= u32::MAX,
{
    let n = read_le32(s);
    let a = s[0] as int;
    let b = s[1] as int;
    let c = s[2] as int;
    let d = s[3] as int;
    assert(n == a + 256 * (b + 256 * (c + 256 * d)));
    vstd::arithmetic::div_mod::lemma_fundamental_div_mod_converse(
        n as int,
        256,
        b + 256 * (c + 256 * d),
        a,
    );
    vstd::arithmetic::div_mod::lemma_fundamental_div_mod_converse(
        b + 256 * (c + 256 * d),
        256,
        c + 256 * d,
        b,
    );
    vstd::arithmetic::div_mod::lemma_fundamental_div_mod_converse(c + 256 * d, 256, d, c);
    vstd::arithmetic::div_mod::lemma_div_denominator(n as int, 256, 256);
    vstd::arithmetic::div_mod::lemma_div_denominator(n as int, 65536, 256);
    assert(le32(n) =~= s);
}

/// Encodes a snapshot record.
pub fn encode_snapshot_record(record: &SnapshotRecord) -> (bytes: Vec<u8>)
    ensures
        bytes@ == snapshot_bytes(*record),
{
    let mut bytes: Vec<u8> = Vec::new();
    let mut i: usize = 0;
    while i < SNAPSHOT_WORDS
        invariant
            i <= 8,
            bytes@ == words_bytes(record.words@.subrange(0, i as int)),
        decreases 8 - i,
    {
        push_le32(&mut bytes, record.words[i] as usize);
        proof {
            let next = record.words@.subrange(0, i + 1);
            assert(next.drop_last() =~= record.words@.subrange(0, i as int));
        }
        i += 1;
    }
    assert(record.words@.subrange(0, 8) =~= record.words@);
    bytes.push(if record.grounded {
        1
    } else {
        0
    });
    bytes.push(if record.completed {
        1
    } else {
        0
    });
    assert(bytes@ =~= snapshot_bytes(*record));
    bytes
}

/// The word at bytes `4 * i .. 4 * i + 4` of a snapshot-length string.
fn word_at_index(bytes: &[u8], i: usize) -> (word: u32)
    requires
        bytes@.len() == 34,
        i < 8,
    ensures
        word == word_at(bytes@, i as int),
{
    let at = 4 * i;
    proof {
        lemma_read_le32_round_trip(bytes@.subrange(at as int, at + 4));
    }
    let low = bytes[at] as u32 + 256 * bytes[at + 1] as u32;
    let high = bytes[at + 2] as u32 + 256 * bytes[at + 3] as u32;
    low + 65536 * high
}

/// Whether a bit pattern is a finite single-precision number.
fn bits_are_finite(bits: u32) -> (finite: bool)
    ensures
        finite == is_finite_bits(bits),
{
    (bits / 0x80_0000) % 0x100 != 0xff
}

/// Decodes a snapshot: checks the length, then that no field is an infinity
/// or a NaN, then that the flag bytes are 0 or 1, in that order.
pub fn decode_snapshot_record(bytes: &[u8]) -> (result: Result<SnapshotRecord, SnapshotError>)
    ensures
        decode_outcome(bytes@, result),
        result is Ok <==> snapshot_valid(bytes@),
{
    if bytes.len() != SNAPSHOT_LEN {
        return Err(SnapshotError::WrongLength { found: bytes.len() });
    }
    let words: [u32; 8] = [
        word_at_index(bytes, 0),
        word_at_index(bytes, 1),
        word_at_index(bytes, 2),
        word_at_index(bytes, 3),
        word_at_index(bytes, 4),
        word_at_index(bytes, 5),
        word_at_index(bytes, 6),
        word_at_index(bytes, 7),
    ];
    let mut i: usize = 0;
    while i < SNAPSHOT_WORDS
        invariant
            i <= 8,
            bytes@.len() == 34,
            forall|k: int| 0 <= k < 8 ==> words[k] == #[trigger] word_at(bytes@, k),
            forall|k: int| 0 <= k < i ==> is_finite_bits(#[trigger] word_at(bytes@, k) as u32),
        decreases 8 - i,
    {
        if !bits_are_finite(words[i]) {
            assert(!is_finite_bits(word_at(bytes@, i as int) as u32));
            return Err(SnapshotError::NonFinite);
        }
        i += 1;
    }
    if bytes[32] > 1 || bytes[33] > 1 {
        return Err(SnapshotError::InvalidBoolean);
    }
    Ok(SnapshotRecord { words, grounded: bytes[32] != 0, completed: bytes[33] != 0 })
}

/// Decoding the encoding of a record whose fields are all finite gives the
/// record back.
pub proof fn lemma_snapshot_round_trip(record: SnapshotRecord)
    requires
        forall|i: int| 0 <= i < 8 ==> is_finite_bits(#[trigger] record.words[i]),
    ensures
        decodes_to(snapshot_bytes(record), record),
{
    let bytes = snapshot_bytes(record);
    let words = record.words@;
    lemma_words_bytes_len(words);
    assert forall|i: int| 0 <= i < 8 implies record.words[i] == #[trigger] word_at(bytes, i) by {
        lemma_words_bytes_word(words, i);
        assert(bytes.subrange(4 * i, 4 * i + 4) =~= words_bytes(words).subrange(4 * i, 4 * i + 4));
        lemma_le32_round_trip(words[i] as nat);
    }
    assert(words_finite(bytes)) by {
        assert forall|i: int| 0 <= i < 8 implies is_finite_bits(
            #[trigger] word_at(bytes, i) as u32,
        ) by {
            assert(record.words[i] == word_at(bytes, i));
        }
    }
}

/// A string that decodes to a record is exactly that record's encoding.
pub proof fn lemma_snapshot_encoding_is_canonical(bytes: Seq<u8>, record: SnapshotRecord)
    requires
        decodes_to(bytes, record),
    ensures
        snapshot_bytes(record) == bytes,
{
    let words = record.words@;
    let encoded = snapshot_bytes(record);
    lemma_words_bytes_len(words);
    assert forall|k: int| 0 <= k < 34 implies encoded[k] == bytes[k] by {
        if k < 32 {
            let i = k / 4;
            lemma_words_bytes_word(words, i);
            let chunk = bytes.subrange(4 * i, 4 * i + 4);
            lemma_read_le32_round_trip(chunk);
            assert(record.words[i] == word_at(bytes, i));
            assert(encoded.subrange(4 * i, 4 * i + 4) =~= words_bytes(words).subrange(
                4 * i,
                4 * i + 4,
            ));
            assert(encoded[k] == encoded.subrange(4 * i, 4 * i + 4)[k - 4 * i]);
            assert(bytes[k] == chunk[k - 4 * i]);
        }
    }
    assert(encoded =~= bytes);
}

/// The error that decoding an invalid snapshot reports.
pub open spec fn decode_error(bytes: Seq<u8>) -> SnapshotError {
    if bytes.len() != 34 {
        SnapshotError::WrongLength { found: bytes.len() as usize }
    } else if !words_finite(bytes) {
        SnapshotError::NonFinite
    } else {
        SnapshotError::InvalidBoolean
    }
}

/// The sentence that describes a snapshot error.
pub open spec fn error_text(error: SnapshotError) -> Seq<char> {
    match error {
        SnapshotError::WrongLength { found } => "expected 34 bytes, found "@ + decimal(
            found as nat,
        ),
        SnapshotError::NonFinite => "snapshot contains a non-finite number"@,
        SnapshotError::InvalidBoolean => "snapshot contains an invalid boolean"@,
    }
}

impl SnapshotError {
    /// The error as a sentence.
    pub fn message(&self) -> (text: String)
        ensures
            text@ == error_text(*self),
    {
        match self {
            SnapshotError::WrongLength { found } => {
                let mut text = "expected 34 bytes, found ".to_owned();
                push_decimal(&mut text, *found);
                text
            },
            SnapshotError::NonFinite => "snapshot contains a non-finite number".to_owned(),
            SnapshotError::InvalidBoolean => "snapshot contains an invalid boolean".to_owned(),
        }
    }
}

/// A snapshot record is the game state the timeline records and rewinds.
impl SnapshotState for SnapshotRecord {
    open spec fn snapshot(&self) -> Seq<u8> {
        snapshot_bytes(*self)
    }

    open spec fn accepts_snapshot(&self, bytes: Seq<u8>) -> bool {
        snapshot_valid(bytes)
    }

    open spec fn refusal(&self, bytes: Seq<u8>) -> Seq<char> {
        error_text(decode_error(bytes))
    }

    fn encode_snapshot(&self) -> (bytes: Vec<u8>) {
        encode_snapshot_record(self)
    }

    fn restore_snapshot(&mut self, bytes: &[u8]) -> (result: Result<(), String>) {
        match decode_snapshot_record(bytes) {
            Ok(record) => {
                proof {
                    lemma_snapshot_encoding_is_canonical(bytes@, record);
                }
                *self = record;
                Ok(())
            },
            Err(error) => Err(error.message()),
        }
    }
}

} // verus!
