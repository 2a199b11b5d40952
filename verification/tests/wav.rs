use unrun::noise::noise_bits;
use unrun::wav::{SAMPLE_RATE, encode_wav};

fn le32(bytes: &[u8]) -> u32 {
    u32::from_le_bytes(bytes.try_into().unwrap())
}

fn le16(bytes: &[u8]) -> u16 {
    u16::from_le_bytes(bytes.try_into().unwrap())
}

#[test]
fn header_describes_sixteen_bit_stereo_pcm() {
    let wav = encode_wav(&[0; 3], &[0; 3]);
    assert_eq!(wav.len(), 44 + 12);
    assert_eq!(&wav[0..4], b"RIFF");
    assert_eq!(le32(&wav[4..8]), 36 + 12);
    assert_eq!(&wav[8..16], b"WAVEfmt ");
    assert_eq!(le32(&wav[16..20]), 16);
    assert_eq!(le16(&wav[20..22]), 1);
    assert_eq!(le16(&wav[22..24]), 2);
    assert_eq!(le32(&wav[24..28]), SAMPLE_RATE);
    assert_eq!(le32(&wav[28..32]), 44_100 * 4);
    assert_eq!(le16(&wav[32..34]), 4);
    assert_eq!(le16(&wav[34..36]), 16);
    assert_eq!(&wav[36..40], b"data");
    assert_eq!(le32(&wav[40..44]), 12);
}

#[test]
fn frames_interleave_left_then_right() {
    let wav = encode_wav(&[1, -1, i16::MAX], &[-32768, 256, 0]);
    assert_eq!(
        &wav[44..],
        &[1, 0, 0, 0x80, 0xff, 0xff, 0, 1, 0xff, 0x7f, 0, 0]
    );
}

#[test]
fn silence_is_only_a_header() {
    let wav = encode_wav(&[], &[]);
    assert_eq!(wav.len(), 44);
    assert_eq!(le32(&wav[4..8]), 36);
    assert_eq!(le32(&wav[40..44]), 0);
}

#[test]
fn noise_hash_matches_known_values() {
    assert_eq!(noise_bits(0, 0), 0);
    assert_eq!(noise_bits(1, 0), 1_753_845_952);
    assert_eq!(noise_bits(0, 17), 1_135_595_158);
    assert_eq!(noise_bits(12_345, 17), 3_976_562_731);
    assert_eq!(noise_bits(u32::MAX, u32::MAX), 903_996_321);
    assert_eq!(noise_bits(44_100, 490), 1_789_076_393);
}
