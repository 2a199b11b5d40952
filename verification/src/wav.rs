//! Framing of 16-bit stereo PCM audio as a RIFF/WAVE file.
use vstd::prelude::*;

use crate::delta::{le16, le32, push_le32};

verus! {

/// Audio frames per second.
pub const SAMPLE_RATE: u32 = 44_100;

/// Bytes in one 16-bit sample.
pub const BYTES_PER_SAMPLE: usize = 2;

/// Bytes in one stereo frame.
pub const BYTES_PER_FRAME: usize = 4;

/// The 44-byte header of a 16-bit stereo PCM file at [`SAMPLE_RATE`]
/// holding `frames` frames.
pub open spec fn wav_header(frames: nat) -> Seq<u8> {
    let data_bytes: nat = (BYTES_PER_FRAME * frames) as nat;
    seq![0x52u8, 0x49, 0x46, 0x46] + le32((36 + data_bytes) as nat) + seq![
        0x57u8,
        0x41,
        0x56,
        0x45,
        0x66,
        0x6d,
        0x74,
        0x20,
    ] + le32(16) + le16(1) + le16(2) + le32(SAMPLE_RATE as nat) + le32(
        (SAMPLE_RATE * 4) as nat,
    ) + le16(4) + le16(16) + seq![0x64u8, 0x61, 0x74, 0x61] + le32(data_bytes)
}

/// One sample as two little-endian two's-complement bytes.
pub open spec fn sample_bytes(sample: i16) -> Seq<u8> {
    le16(sample as u16 as nat)
}

/// The first `n` frames, each the left sample then the right one.
pub open spec fn interleaved(left: Seq<i16>, right: Seq<i16>, n: nat) -> Seq<u8>
    decreases n,
{
    if n == 0 {
        Seq::empty()
    } else {
        interleaved(left, right, (n - 1) as nat) + sample_bytes(left[n - 1]) + sample_bytes(
            right[n - 1],
        )
    }
}

fn push_le16(out: &mut Vec<u8>, n: u16)
    ensures
        final(out)@ == old(out)@ + le16(n as nat),
{
    out.push((n % 256) as u8);
    out.push((n / 256) as u8);
    assert(final(out)@ =~= old(out)@ + le16(n as nat));
}

fn push_bytes4(out: &mut Vec<u8>, a: u8, b: u8, c: u8, d: u8)
    ensures
        final(out)@ == old(out)@ + seq![a, b, c, d],
{
    out.push(a);
    out.push(b);
    out.push(c);
    out.push(d);
    assert(final(out)@ =~= old(out)@ + seq![a, b, c, d]);
}

/// Encodes 16-bit stereo PCM samples as a WAVE file.
pub fn encode_wav(left: &[i16], right: &[i16]) -> (wav: Vec<u8>)
    requires
        left@.len() == right@.len(),
        36 + BYTES_PER_FRAME * left@.len() <= u32::MAX,
    ensures
        wav@ == wav_header(left@.len()) + interleaved(left@, right@, left@.len()),
{
    let frames = left.len();
    let data_bytes = frames * 2 * BYTES_PER_SAMPLE;
    let mut wav: Vec<u8> = Vec::new();
    push_bytes4(&mut wav, 0x52, 0x49, 0x46, 0x46);
    push_le32(&mut wav, 36 + data_bytes);
    push_bytes4(&mut wav, 0x57, 0x41, 0x56, 0x45);
    push_bytes4(&mut wav, 0x66, 0x6d, 0x74, 0x20);
    push_le32(&mut wav, 16);
    push_le16(&mut wav, 1);
    push_le16(&mut wav, 2);
    push_le32(&mut wav, SAMPLE_RATE as usize);
    push_le32(&mut wav, (SAMPLE_RATE * 4) as usize);
    push_le16(&mut wav, 4);
    push_le16(&mut wav, 16);
    push_bytes4(&mut wav, 0x64, 0x61, 0x74, 0x61);
    push_le32(&mut wav, data_bytes);
    let ghost header = wav@;
    assert(header =~= wav_header(frames as nat));
    let mut i: usize = 0;
    while i < frames
        invariant
            i <= frames,
            frames == left@.len(),
            frames == right@.len(),
            wav@ == header + interleaved(left@, right@, i as nat),
        decreases frames - i,
    {
        push_le16(&mut wav, left[i] as u16);
        push_le16(&mut wav, right[i] as u16);
        i += 1;
        assert(wav@ =~= header + interleaved(left@, right@, i as nat));
    }
    wav
}

} // verus!
