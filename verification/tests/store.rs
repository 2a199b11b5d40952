use std::collections::HashSet;

use unrun::error::TimelineError;
use unrun::hash::{BlobKind, blob_id_for};
use unrun::store::ContentStore;

fn expected_id(tag: u8, bytes: &[u8]) -> u128 {
    let mut input = vec![tag];
    input.extend_from_slice(bytes);
    let digest = blake3::hash(&input);
    u128::from_be_bytes(digest.as_bytes()[..16].try_into().unwrap())
}

#[test]
fn blob_ids_are_the_leading_digest_bytes_of_tag_and_content() {
    assert_eq!(
        blob_id_for(BlobKind::Checkpoint, b"state"),
        expected_id(1, b"state")
    );
    assert_eq!(blob_id_for(BlobKind::Delta, b""), expected_id(2, b""));
    assert_ne!(
        blob_id_for(BlobKind::Checkpoint, b"state"),
        blob_id_for(BlobKind::Delta, b"state")
    );
    assert_ne!(
        blob_id_for(BlobKind::Delta, b"state"),
        blob_id_for(BlobKind::Delta, b"statf")
    );
}

#[test]
fn identical_content_is_stored_once() {
    let mut store = ContentStore::new();
    let first = store.insert(BlobKind::Delta, vec![1, 2, 3]).unwrap();
    let second = store.insert(BlobKind::Delta, vec![1, 2, 3]).unwrap();
    assert_eq!(first, second);
    assert_eq!(store.blob_count(), 1);
    assert_eq!(store.deduplicated_writes(), 1);
    assert_eq!(store.byte_len(), 3);

    let other = store.insert(BlobKind::Checkpoint, vec![1, 2, 3]).unwrap();
    assert_ne!(first, other);
    assert_eq!(store.blob_count(), 2);
    assert_eq!(store.deduplicated_writes(), 1);
    assert_eq!(store.byte_len(), 6);
}

#[test]
fn get_checks_presence_and_kind() {
    let mut store = ContentStore::new();
    let id = store.insert(BlobKind::Checkpoint, vec![9, 8]).unwrap();
    assert_eq!(store.get(id, BlobKind::Checkpoint).unwrap(), &[9, 8]);
    assert_eq!(
        store.get(id, BlobKind::Delta),
        Err(TimelineError::CorruptBlob)
    );
    assert_eq!(
        store.get(id.wrapping_add(1), BlobKind::Checkpoint),
        Err(TimelineError::MissingBlob)
    );
}

#[test]
fn retain_drops_blobs_that_are_not_live() {
    let mut store = ContentStore::new();
    let keep = store.insert(BlobKind::Delta, vec![0; 5]).unwrap();
    let drop = store.insert(BlobKind::Delta, vec![7; 2]).unwrap();
    let mut live = HashSet::new();
    live.insert(keep);
    store.retain(&live);
    assert_eq!(store.blob_count(), 1);
    assert_eq!(store.byte_len(), 5);
    assert!(store.get(keep, BlobKind::Delta).is_ok());
    assert_eq!(
        store.get(drop, BlobKind::Delta),
        Err(TimelineError::MissingBlob)
    );
}
