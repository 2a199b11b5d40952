use unrun::timeline::SnapshotState;
use unrun::snapshot::{
    SnapshotError, SnapshotRecord, decode_snapshot_record, encode_snapshot_record, SNAPSHOT_LEN,
};

fn record(values: [f32; 8], grounded: bool, completed: bool) -> SnapshotRecord {
    SnapshotRecord {
        words: values.map(f32::to_bits),
        grounded,
        completed,
    }
}

#[test]
fn snapshot_round_trip_is_exact() {
    // Position, velocity, facing, animation phase, coyote timer, jump buffer.
    let state = record([412.25, 118.5, -93.0, 41.0, 1.0, 0.0, 0.10, 0.0], false, false);
    let expected = state;
    let bytes = encode_snapshot_record(&state);
    let restored = decode_snapshot_record(&bytes).unwrap();
    assert_eq!(encode_snapshot_record(&restored), encode_snapshot_record(&expected));
    assert_eq!(restored, expected);
}

#[test]
fn encoding_is_little_endian_bit_patterns_then_flags() {
    let state = record([1.0, -2.0, 0.0, 0.0, 0.0, 0.0, 0.0, 0.5], true, false);
    let bytes = encode_snapshot_record(&state);
    assert_eq!(bytes.len(), SNAPSHOT_LEN);
    assert_eq!(&bytes[0..4], &[0x00, 0x00, 0x80, 0x3f]);
    assert_eq!(&bytes[4..8], &[0x00, 0x00, 0x00, 0xc0]);
    assert_eq!(&bytes[28..32], &[0x00, 0x00, 0x00, 0x3f]);
    assert_eq!(bytes[32], 1);
    assert_eq!(bytes[33], 0);
}

#[test]
fn wrong_length_reports_the_length_found() {
    assert_eq!(
        decode_snapshot_record(&[0; 33]),
        Err(SnapshotError::WrongLength { found: 33 })
    );
    assert_eq!(
        decode_snapshot_record(&[]),
        Err(SnapshotError::WrongLength { found: 0 })
    );
}

#[test]
fn infinities_and_nans_are_refused() {
    let good = record([0.0; 8], false, false);
    for (slot, value) in [(0, f32::INFINITY), (7, f32::NEG_INFINITY), (3, f32::NAN)] {
        let mut bytes = encode_snapshot_record(&good);
        bytes[slot * 4..slot * 4 + 4].copy_from_slice(&value.to_bits().to_le_bytes());
        assert_eq!(decode_snapshot_record(&bytes), Err(SnapshotError::NonFinite));
    }
    // The largest finite value is accepted.
    let big = record([f32::MAX; 8], true, true);
    assert_eq!(decode_snapshot_record(&encode_snapshot_record(&big)), Ok(big));
}

#[test]
fn flags_other_than_zero_or_one_are_refused() {
    let mut bytes = encode_snapshot_record(&record([0.0; 8], false, false));
    bytes[33] = 2;
    assert_eq!(decode_snapshot_record(&bytes), Err(SnapshotError::InvalidBoolean));
    // A non-finite number is reported before a bad flag.
    bytes[0..4].copy_from_slice(&f32::NAN.to_bits().to_le_bytes());
    assert_eq!(decode_snapshot_record(&bytes), Err(SnapshotError::NonFinite));
}

#[test]
fn records_restore_from_their_own_encoding_and_explain_refusals() {
    let source = record([3.5, -1.0, 0.0, 2.0, 1.0, 0.25, 0.0, 0.1], true, false);
    let mut target = record([0.0; 8], false, false);
    target.restore_snapshot(&source.encode_snapshot()).unwrap();
    assert_eq!(target, source);

    let before = target;
    assert_eq!(
        target.restore_snapshot(&[0; 33]),
        Err("expected 34 bytes, found 33".to_owned())
    );
    assert_eq!(target, before);
    let mut bytes = source.encode_snapshot();
    bytes[4..8].copy_from_slice(&f32::INFINITY.to_bits().to_le_bytes());
    assert_eq!(
        target.restore_snapshot(&bytes),
        Err("snapshot contains a non-finite number".to_owned())
    );
    bytes = source.encode_snapshot();
    bytes[32] = 7;
    assert_eq!(
        target.restore_snapshot(&bytes),
        Err("snapshot contains an invalid boolean".to_owned())
    );
    assert_eq!(SnapshotError::WrongLength { found: 1024 }.message(), "expected 34 bytes, found 1024");
    assert_eq!(target, before);
}
