use unrun::delta::{apply_delta_backwards, encode_delta};
use unrun::error::TimelineError;
use unrun::snapshot::SnapshotRecord;
use unrun::timeline::Timeline;

/// Two counters, snapshotted as their little-endian bytes.
#[derive(Clone, Debug, Eq, PartialEq)]
struct TestState {
    left: u32,
    right: u32,
}

impl TestState {
    fn encode(&self) -> Vec<u8> {
        [self.left.to_le_bytes(), self.right.to_le_bytes()].concat()
    }

    fn decode(bytes: &[u8]) -> Self {
        TestState {
            left: u32::from_le_bytes(bytes[0..4].try_into().unwrap()),
            right: u32::from_le_bytes(bytes[4..8].try_into().unwrap()),
        }
    }
}

/// Rewinds the snapshot bytes of `state` and reads the state back.
fn rewind(timeline: &mut Timeline, state: &mut TestState) -> Result<bool, TimelineError> {
    let mut bytes = state.encode();
    let rewound = timeline.rewind(&mut bytes)?;
    *state = TestState::decode(&bytes);
    Ok(rewound)
}

#[test]
fn rewinds_every_recorded_frame() {
    let mut state = TestState { left: 1, right: 2 };
    let mut timeline = Timeline::new(&state.encode(), 60, 10).unwrap();
    for value in 2..=12 {
        state.left = value;
        timeline.record(&state.encode()).unwrap();
    }

    for expected in (1..=11).rev() {
        assert!(rewind(&mut timeline, &mut state).unwrap());
        assert_eq!(state.left, expected);
        assert_eq!(state.right, 2);
    }
    assert!(!rewind(&mut timeline, &mut state).unwrap());
}

#[test]
fn repeated_idle_frames_share_one_delta_blob() {
    let state = TestState { left: 7, right: 9 };
    let mut timeline = Timeline::new(&state.encode(), 600, 120).unwrap();
    for _ in 0..100 {
        timeline.record(&state.encode()).unwrap();
    }

    let stats = timeline.stats();
    assert_eq!(stats.rewindable_frames, 100);
    assert!(
        stats.blob_count <= 2,
        "{} blobs were stored",
        stats.blob_count
    );
    assert!(stats.deduplicated_writes >= 99);
}

#[test]
fn history_capacity_is_a_hard_rewind_limit() {
    let mut state = TestState { left: 0, right: 0 };
    let mut timeline = Timeline::new(&state.encode(), 3, 2).unwrap();
    for value in 1..=5 {
        state.left = value;
        timeline.record(&state.encode()).unwrap();
    }

    assert_eq!(timeline.available_frames(), 3);
    for expected in [4, 3, 2] {
        assert!(rewind(&mut timeline, &mut state).unwrap());
        assert_eq!(state.left, expected);
    }
    assert!(!rewind(&mut timeline, &mut state).unwrap());
}

#[test]
fn variable_length_snapshots_have_a_safe_fallback() {
    let before = b"short";
    let after = b"a longer state";
    let delta = encode_delta(before, after).unwrap();
    assert_eq!(apply_delta_backwards(after, &delta).unwrap(), before);
    assert!(apply_delta_backwards(b"wrong state", &delta).is_err());
}

#[test]
fn stats_count_blobs_payload_and_logical_bytes() {
    let mut state = TestState { left: 1, right: 2 };
    let mut timeline = Timeline::new(&state.encode(), 60, 10).unwrap();
    let empty = timeline.stats();
    assert_eq!(empty.rewindable_frames, 0);
    assert_eq!(empty.capacity_frames, 60);
    assert_eq!(empty.blob_count, 1);
    assert_eq!(empty.stored_payload_bytes, 8);
    assert_eq!(empty.logical_snapshot_bytes, 8);

    state.left = 2;
    timeline.record(&state.encode()).unwrap();
    let stats = timeline.stats();
    assert_eq!(stats.rewindable_frames, 1);
    assert_eq!(stats.blob_count, 2);
    // The checkpoint (8 bytes) and one delta: mode, length, mask, one value.
    assert_eq!(stats.stored_payload_bytes, 8 + 5);
    assert_eq!(stats.logical_snapshot_bytes, 16);
    assert_eq!(stats.deduplicated_writes, 0);
}

#[test]
fn rewind_on_an_empty_history_changes_nothing() {
    let mut state = TestState { left: 3, right: 4 };
    let mut timeline = Timeline::new(&state.encode(), 5, 2).unwrap();
    assert!(!timeline.can_rewind());
    assert!(!rewind(&mut timeline, &mut state).unwrap());
    assert_eq!(state, TestState { left: 3, right: 4 });
    assert_eq!(timeline.available_frames(), 0);
    assert_eq!(timeline.capacity(), 5);
}

#[test]
fn garbage_collection_keeps_every_rewindable_frame() {
    let mut state = TestState { left: 0, right: 0 };
    let mut timeline = Timeline::new(&state.encode(), 4, 3).unwrap();
    for value in 1..=40 {
        state.left = value;
        timeline.record(&state.encode()).unwrap();
    }
    let before = timeline.stats().blob_count;
    timeline.collect_garbage();
    let after = timeline.stats().blob_count;
    assert!(after <= before);
    assert_eq!(timeline.available_frames(), 4);
    for expected in [39, 38, 37, 36] {
        assert!(rewind(&mut timeline, &mut state).unwrap());
        assert_eq!(state.left, expected);
    }
    assert!(!rewind(&mut timeline, &mut state).unwrap());
}

#[test]
fn a_state_that_refuses_its_snapshot_is_reported() {
    let mut timeline = Timeline::from_snapshot(vec![1], 8, 8).unwrap();
    timeline.record_snapshot(vec![2]).unwrap();
    let mut record = SnapshotRecord {
        words: [0; 8],
        grounded: false,
        completed: false,
    };
    let before = record;
    assert_eq!(
        timeline.rewind(&mut record),
        Err(TimelineError::Snapshot("expected 34 bytes, found 1".into()))
    );
    assert_eq!(record, before);
    assert_eq!(timeline.available_frames(), 1);
    let mut bytes = vec![2];
    assert!(timeline.rewind(&mut bytes).unwrap());
    assert_eq!(bytes, vec![1]);
    assert_eq!(timeline.available_frames(), 0);
}

#[test]
fn oversized_snapshots_are_refused() {
    let big = vec![0u8; 65_536];
    assert_eq!(
        Timeline::from_snapshot(big, 4, 4).err(),
        Some(TimelineError::StateTooLarge)
    );
    let mut timeline = Timeline::from_snapshot(vec![1, 2, 3], 4, 4).unwrap();
    assert_eq!(
        timeline.record_snapshot(vec![0u8; 65_536]),
        Err(TimelineError::StateTooLarge)
    );
    assert_eq!(timeline.available_frames(), 0);
    timeline.record_snapshot(vec![1, 2, 4]).unwrap();
    assert_eq!(timeline.previous_snapshot().unwrap(), Some(vec![1, 2, 3]));
}

#[test]
fn idle_frames_store_one_checkpoint_and_one_shared_delta() {
    let state = TestState { left: 7, right: 9 };
    let mut timeline = Timeline::new(&state.encode(), 600, 120).unwrap();
    for _ in 0..100 {
        timeline.record(&state.encode()).unwrap();
    }
    let stats = timeline.stats();
    assert_eq!(stats.rewindable_frames, 100);
    assert_eq!(stats.capacity_frames, 600);
    assert_eq!(stats.blob_count, 2);
    // The 8-byte checkpoint and the empty delta [0, 8, 0, 0].
    assert_eq!(stats.stored_payload_bytes, 12);
    assert_eq!(stats.logical_snapshot_bytes, 8 + 100 * 8);
    assert_eq!(stats.deduplicated_writes, 99);
}

#[test]
fn sweeping_after_a_rewind_keeps_only_the_initial_checkpoint() {
    let mut state = TestState { left: 1, right: 2 };
    let mut timeline = Timeline::new(&state.encode(), 60, 10).unwrap();
    state.left = 5;
    timeline.record(&state.encode()).unwrap();
    assert!(rewind(&mut timeline, &mut state).unwrap());
    assert_eq!(timeline.stats().blob_count, 2);
    timeline.collect_garbage();
    let stats = timeline.stats();
    assert_eq!(stats.blob_count, 1);
    assert_eq!(stats.stored_payload_bytes, 8);
    assert_eq!(timeline.available_frames(), 0);
}

#[test]
fn rewinding_by_hand_restores_the_previous_snapshot() {
    let mut timeline = Timeline::from_snapshot(vec![1, 2, 3], 4, 4).unwrap();
    timeline.record_snapshot(vec![1, 9, 3]).unwrap();
    let previous = timeline.previous_snapshot().unwrap().unwrap();
    assert_eq!(previous, vec![1, 2, 3]);
    timeline.commit_rewind(previous);
    assert_eq!(timeline.available_frames(), 0);
    assert_eq!(timeline.previous_snapshot().unwrap(), None);
}

#[test]
fn checkpoints_follow_the_interval() {
    let mut timeline = Timeline::from_snapshot(vec![0, 0], 100, 3).unwrap();
    for value in [1u8, 2, 4, 8, 16, 32] {
        timeline.record_snapshot(vec![value, 0]).unwrap();
    }
    // One initial checkpoint, six distinct deltas, checkpoints after frames 3 and 6.
    assert_eq!(timeline.stats().blob_count, 1 + 6 + 2);
}
