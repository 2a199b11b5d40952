use unrun::delta::{
    apply_delta_backwards, apply_replacement_delta, apply_xor_delta, bytes_equal, count_ones,
    encode_delta,
};
use unrun::error::TimelineError;

fn invalid(reason: &'static str) -> Result<Vec<u8>, TimelineError> {
    Err(TimelineError::InvalidDelta(reason))
}

#[test]
fn equal_length_delta_is_mask_then_changed_xor_bytes() {
    let before = [1, 2, 3, 4, 5, 6, 7, 8, 9];
    let after = [1, 2, 7, 4, 5, 6, 7, 8, 8];
    let delta = encode_delta(&before, &after).unwrap();
    // Mode 0, length 9, mask bits for bytes 2 and 8, then 3^7 and 9^8.
    assert_eq!(delta, vec![0, 9, 0, 0b0000_0100, 0b0000_0001, 3 ^ 7, 9 ^ 8]);
    assert_eq!(apply_delta_backwards(&after, &delta).unwrap(), before.to_vec());
}

#[test]
fn idle_frames_produce_an_empty_change_list() {
    let state = [5u8; 20];
    let delta = encode_delta(&state, &state).unwrap();
    assert_eq!(delta, vec![0, 20, 0, 0, 0, 0]);
    let other = [9u8; 20];
    assert_eq!(encode_delta(&other, &other).unwrap(), delta);
}

#[test]
fn length_changes_fall_back_to_replacement() {
    let delta = encode_delta(b"ab", b"xyz").unwrap();
    assert_eq!(
        delta,
        vec![1, 2, 0, 0, 0, 3, 0, 0, 0, b'a', b'b', b'x', b'y', b'z']
    );
    assert_eq!(apply_delta_backwards(b"xyz", &delta).unwrap(), b"ab".to_vec());
}

#[test]
fn oversized_equal_snapshots_are_refused() {
    let big = vec![0u8; 65_536];
    assert_eq!(encode_delta(&big, &big), Err(TimelineError::StateTooLarge));
    let largest = vec![0u8; 65_535];
    assert!(encode_delta(&largest, &largest).is_ok());
}

#[test]
fn malformed_deltas_name_their_fault() {
    assert_eq!(apply_delta_backwards(b"abc", &[]), invalid("empty blob"));
    assert_eq!(apply_delta_backwards(b"abc", &[7]), invalid("unknown encoding"));
    assert_eq!(apply_xor_delta(b"abc", &[3]), invalid("missing snapshot length"));
    assert_eq!(apply_xor_delta(b"abc", &[4, 0, 0]), invalid("snapshot length mismatch"));
    assert_eq!(apply_xor_delta(b"abc", &[3, 0]), invalid("truncated change mask"));
    assert_eq!(
        apply_xor_delta(b"abc", &[3, 0, 0b101, 1]),
        invalid("change payload length mismatch")
    );
    assert_eq!(
        apply_replacement_delta(b"abc", &[1, 0, 0, 0, 3]),
        invalid("truncated replacement header")
    );
    assert_eq!(
        apply_replacement_delta(b"abc", &[1, 0, 0, 0, 3, 0, 0, 0, b'z']),
        invalid("replacement length mismatch")
    );
    assert_eq!(
        apply_replacement_delta(b"abc", &[1, 0, 0, 0, 3, 0, 0, 0, b'z', b'a', b'b', b'd']),
        invalid("replacement applied to wrong state")
    );
}

#[test]
fn xor_delta_applies_each_listed_change() {
    assert_eq!(
        apply_xor_delta(b"abc", &[3, 0, 0b101, 1, 2]).unwrap(),
        vec![b'a' ^ 1, b'b', b'c' ^ 2]
    );
}

#[test]
fn byte_helpers() {
    assert!(bytes_equal(b"same", b"same"));
    assert!(!bytes_equal(b"same", b"sane"));
    assert!(!bytes_equal(b"same", b"sam"));
    assert_eq!(count_ones(0), 0);
    assert_eq!(count_ones(0b1011_0001), 4);
    assert_eq!(count_ones(0xff), 8);
}

#[test]
fn one_xor_delta_moves_either_way() {
    let a = [3u8, 1, 4, 1, 5, 9, 2, 6, 5];
    let b = [3u8, 7, 4, 1, 0, 9, 2, 6, 8];
    let forward = encode_delta(&a, &b).unwrap();
    assert_eq!(forward, encode_delta(&b, &a).unwrap());
    assert_eq!(apply_delta_backwards(&b, &forward).unwrap(), a.to_vec());
    assert_eq!(apply_delta_backwards(&a, &forward).unwrap(), b.to_vec());
}
