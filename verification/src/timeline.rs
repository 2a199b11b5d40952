//! A bounded, frame-addressable rewind history.
//!
//! Full checkpoints and XOR deltas share one content-addressed store, so
//! repeated idle frames cost one shared delta instead of full copies.
use std::collections::HashSet;
use std::collections::VecDeque;

use vstd::prelude::*;
use vstd::slice::slice_to_vec;
use vstd::std_specs::hash::group_hash_axioms;

use crate::delta::{
    apply_delta_backwards, encode_delta, lemma_delta_round_trip, spec_encode_delta,
    MAX_XOR_SNAPSHOT,
};
use crate::error::TimelineError;
use crate::hash::{blob_id, BlobKind};
use crate::store::{accepts, payload_bytes, saturate, ContentStore, StoreContents};

verus! {

broadcast use group_hash_axioms;

/// Frames rewound or dropped between two garbage collections.
pub const GC_INTERVAL: usize = 120;

/// A state that can be captured by the rewind timeline.
///
/// Implementations must use one canonical encoding: equal states must produce
/// equal bytes on every platform where saved history is consumed.
pub trait SnapshotState: Sized {
    /// The canonical encoding of the state.
    spec fn snapshot(&self) -> Seq<u8>;

    /// Whether the state accepts `bytes` as a snapshot to restore.
    spec fn accepts_snapshot(&self, bytes: Seq<u8>) -> bool;

    /// Why the state refuses `bytes`.
    spec fn refusal(&self, bytes: Seq<u8>) -> Seq<char>;

    /// Encodes the state.
    fn encode_snapshot(&self) -> (bytes: Vec<u8>)
        ensures
            bytes@ == self.snapshot(),
    ;

    /// Restores the state from an encoding, or explains why it cannot. A
    /// restored state encodes to the bytes it was restored from; a refusal
    /// leaves the state as it was.
    fn restore_snapshot(&mut self, bytes: &[u8]) -> (result: Result<(), String>)
        ensures
            result is Ok <==> old(self).accepts_snapshot(bytes@),
            result is Ok ==> final(self).snapshot() == bytes@,
            result matches Err(reason) ==> reason@ == old(self).refusal(bytes@) && *final(self)
                == *old(self),
    ;
}

/// Raw bytes as a state: the state is its own snapshot, and any bytes can be
/// restored.
impl SnapshotState for Vec<u8> {
    open spec fn snapshot(&self) -> Seq<u8> {
        self@
    }

    open spec fn accepts_snapshot(&self, bytes: Seq<u8>) -> bool {
        true
    }

    open spec fn refusal(&self, bytes: Seq<u8>) -> Seq<char> {
        Seq::empty()
    }

    fn encode_snapshot(&self) -> (bytes: Vec<u8>) {
        slice_to_vec(self.as_slice())
    }

    fn restore_snapshot(&mut self, bytes: &[u8]) -> (result: Result<(), String>) {
        *self = slice_to_vec(bytes);
        Ok(())
    }
}

/// What a timeline means: the snapshots it can rewind to (oldest first), the
/// snapshot of the present frame, and how many frames it keeps.
pub struct TimelineModel {
    pub history: Seq<Seq<u8>>,
    pub current: Seq<u8>,
    pub capacity: nat,
}

impl TimelineModel {
    /// Recording `next`: the present frame joins the history, whose oldest
    /// frame is forgotten once the history would exceed its capacity.
    pub open spec fn recorded(self, next: Seq<u8>) -> TimelineModel {
        let grown = self.history.push(self.current);
        TimelineModel {
            history: if grown.len() > self.capacity {
                grown.drop_first()
            } else {
                grown
            },
            current: next,
            capacity: self.capacity,
        }
    }

    /// Rewinding one frame: the newest history entry becomes the present.
    pub open spec fn rewound(self) -> TimelineModel {
        TimelineModel {
            history: self.history.drop_last(),
            current: self.history.last(),
            capacity: self.capacity,
        }
    }

    /// The snapshot each history frame leads to: the next history entry, or
    /// the present for the newest one.
    pub open spec fn after_snapshots(self) -> Seq<Seq<u8>> {
        if self.history.len() == 0 {
            Seq::empty()
        } else {
            self.history.drop_first().push(self.current)
        }
    }

    /// The oldest snapshot the timeline can reach: the oldest history entry,
    /// or the present when the history is empty.
    pub open spec fn first(self) -> Seq<u8> {
        if self.history.len() > 0 {
            self.history[0]
        } else {
            self.current
        }
    }

    /// Bytes the history would take as full copies: the present snapshot and
    /// the snapshot every frame leads to.
    pub open spec fn logical_bytes(self) -> nat {
        self.current.len() + total_len(self.after_snapshots())
    }
}

/// Sum of the lengths of some byte strings.
pub open spec fn total_len(snapshots: Seq<Seq<u8>>) -> nat
    decreases snapshots.len(),
{
    if snapshots.len() == 0 {
        0
    } else {
        total_len(snapshots.drop_last()) + snapshots.last().len()
    }
}

/// Runtime measurements for the in-memory content-addressed history.
#[derive(Clone, Copy, Debug, Default)]
pub struct TimelineStats {
    pub rewindable_frames: usize,
    pub capacity_frames: usize,
    pub blob_count: usize,
    pub stored_payload_bytes: usize,
    pub logical_snapshot_bytes: usize,
    pub deduplicated_writes: usize,
}

/// One recorded frame: the delta back to the previous frame, a checkpoint of
/// the frame when one was due, and the frame's snapshot length.
#[derive(Clone, Copy)]
struct FrameDelta {
    delta: u128,
    checkpoint: Option<u128>,
    logical_bytes: usize,
}

/// The snapshot history frame `i` leads to: the next history entry, or the
/// present for the newest frame.
pub open spec fn after_of(history: Seq<Seq<u8>>, current: Seq<u8>, i: int) -> Seq<u8> {
    if i + 1 < history.len() {
        history[i + 1]
    } else {
        current
    }
}

/// A frame is backed by the store when its delta leads from the snapshot it
/// ends at back to the one it started from, and its checkpoint, if any, holds
/// the snapshot it ends at.
spec fn frame_backed(
    contents: StoreContents,
    frame: FrameDelta,
    before: Seq<u8>,
    after: Seq<u8>,
) -> bool {
    &&& contents.contains_key(frame.delta)
    &&& contents[frame.delta] == (BlobKind::Delta, spec_encode_delta(before, after)->Ok_0)
    &&& frame.logical_bytes == after.len()
    &&& frame.checkpoint matches Some(id) ==> contents.contains_key(id) && contents[id] == (
        BlobKind::Checkpoint,
        after,
    )
}

/// Every frame of a history is backed by the store.
spec fn backed(
    contents: StoreContents,
    frames: Seq<FrameDelta>,
    history: Seq<Seq<u8>>,
    current: Seq<u8>,
) -> bool {
    forall|i: int|
        0 <= i < frames.len() ==> #[trigger] frame_backed(
            contents,
            frames[i],
            history[i],
            after_of(history, current, i),
        )
}

proof fn lemma_backed_grow(
    small: StoreContents,
    large: StoreContents,
    frames: Seq<FrameDelta>,
    history: Seq<Seq<u8>>,
    current: Seq<u8>,
)
    requires
        backed(small, frames, history, current),
        forall|id: u128| #[trigger]
            small.contains_key(id) ==> large.contains_key(id) && large[id] == small[id],
    ensures
        backed(large, frames, history, current),
{
    assert forall|i: int| 0 <= i < frames.len() implies #[trigger] frame_backed(
        large,
        frames[i],
        history[i],
        after_of(history, current, i),
    ) by {
        assert(frame_backed(small, frames[i], history[i], after_of(history, current, i)));
    }
}

proof fn lemma_backed_keep(
    before: StoreContents,
    after: StoreContents,
    live: Set<u128>,
    frames: Seq<FrameDelta>,
    history: Seq<Seq<u8>>,
    current: Seq<u8>,
)
    requires
        backed(before, frames, history, current),
        forall|id: u128| #[trigger]
            before.contains_key(id) && live.contains(id) ==> after.contains_key(id) && after[id]
                == before[id],
        forall|k: int|
            0 <= k < frames.len() ==> live.contains(#[trigger] frames[k].delta) && (
            frames[k].checkpoint matches Some(c) ==> live.contains(c)),
    ensures
        backed(after, frames, history, current),
{
    assert forall|i: int| 0 <= i < frames.len() implies #[trigger] frame_backed(
        after,
        frames[i],
        history[i],
        after_of(history, current, i),
    ) by {
        assert(frame_backed(before, frames[i], history[i], after_of(history, current, i)));
        assert(live.contains(frames[i].delta));
    }
}

proof fn lemma_backed_push(
    contents: StoreContents,
    frames: Seq<FrameDelta>,
    history: Seq<Seq<u8>>,
    current: Seq<u8>,
    frame: FrameDelta,
    next: Seq<u8>,
)
    requires
        frames.len() == history.len(),
        backed(contents, frames, history, current),
        frame_backed(contents, frame, current, next),
    ensures
        backed(contents, frames.push(frame), history.push(current), next),
{
    let f2 = frames.push(frame);
    let h2 = history.push(current);
    assert forall|i: int| 0 <= i < f2.len() implies #[trigger] frame_backed(
        contents,
        f2[i],
        h2[i],
        after_of(h2, next, i),
    ) by {
        if i + 1 < f2.len() {
            assert(frame_backed(contents, frames[i], history[i], after_of(history, current, i)));
            assert(after_of(h2, next, i) == after_of(history, current, i));
        }
    }
}

proof fn lemma_backed_drop_first(
    contents: StoreContents,
    frames: Seq<FrameDelta>,
    history: Seq<Seq<u8>>,
    current: Seq<u8>,
)
    requires
        frames.len() == history.len(),
        frames.len() > 0,
        backed(contents, frames, history, current),
    ensures
        backed(contents, frames.drop_first(), history.drop_first(), current),
{
    let f2 = frames.drop_first();
    let h2 = history.drop_first();
    assert forall|i: int| 0 <= i < f2.len() implies #[trigger] frame_backed(
        contents,
        f2[i],
        h2[i],
        after_of(h2, current, i),
    ) by {
        assert(frame_backed(
            contents,
            frames[i + 1],
            history[i + 1],
            after_of(history, current, i + 1),
        ));
    }
}

proof fn lemma_backed_drop_last(
    contents: StoreContents,
    frames: Seq<FrameDelta>,
    history: Seq<Seq<u8>>,
    current: Seq<u8>,
)
    requires
        frames.len() == history.len(),
        frames.len() > 0,
        backed(contents, frames, history, current),
    ensures
        backed(contents, frames.drop_last(), history.drop_last(), history.last()),
{
    let f2 = frames.drop_last();
    let h2 = history.drop_last();
    assert forall|i: int| 0 <= i < f2.len() implies #[trigger] frame_backed(
        contents,
        f2[i],
        h2[i],
        after_of(h2, history.last(), i),
    ) by {
        assert(frame_backed(contents, frames[i], history[i], after_of(history, current, i)));
    }
}

/// A bounded, frame-addressable rewind history.
pub struct Timeline {
    store: ContentStore,
    frames: VecDeque<FrameDelta>,
    current: Vec<u8>,
    initial_checkpoint: Option<u128>,
    capacity: usize,
    checkpoint_interval: usize,
    frames_recorded: usize,
    discarded_since_gc: usize,
    history: Ghost<Seq<Seq<u8>>>,
    stray: Ghost<nat>,
}

impl View for Timeline {
    type V = TimelineModel;

    closed spec fn view(&self) -> TimelineModel {
        TimelineModel {
            history: self.history@,
            current: self.current@,
            capacity: self.capacity as nat,
        }
    }
}

impl Timeline {
    /// Well-formedness apart from the garbage-collection counter.
    pub closed spec fn wf_core(&self) -> bool {
        &&& self.store.wf()
        &&& self.frames@.len() == self.history@.len()
        &&& self.history@.len() <= self.capacity
        &&& self.checkpoint_interval >= 1
        &&& self.current@.len() <= MAX_XOR_SNAPSHOT
        &&& forall|i: int|
            0 <= i < self.history@.len() ==> (#[trigger] self.history@[i]).len()
                <= MAX_XOR_SNAPSHOT
        &&& backed(self.store.contents(), self.frames@, self.history@, self.current@)
        &&& self.store.contents().dom().len() <= 2 * self.frames@.len() + 2
            * self.discarded_since_gc + 1 + self.stray@
        &&& self.initial_checkpoint matches Some(id) ==> {
            &&& id == blob_id(BlobKind::Checkpoint, self@.first())
            &&& self.store.contents().contains_key(id)
            &&& self.store.contents()[id] == (BlobKind::Checkpoint, self@.first())
        }
    }

    /// Every recorded frame can be replayed backwards from the store.
    pub closed spec fn wf(&self) -> bool {
        &&& self.wf_core()
        &&& self.discarded_since_gc < GC_INTERVAL
    }

    /// The blobs the store holds.
    pub closed spec fn stored(&self) -> StoreContents {
        self.store.contents()
    }

    /// The blob identifiers the history refers to.
    pub closed spec fn referenced(&self) -> Set<u128> {
        Set::new(
            |id: u128|
                self.initial_checkpoint == Some(id) || exists|i: int|
                    0 <= i < self.frames@.len() && (self.frames@[i].delta == id
                        || self.frames@[i].checkpoint == Some(id)),
        )
    }

    /// The history refers to at most the initial checkpoint and two blobs
    /// per frame.
    proof fn lemma_referenced_bound(&self)
        ensures
            self.referenced().finite(),
            self.referenced().len() <= 1 + 2 * self.frames@.len(),
    {
        broadcast use vstd::seq_lib::seq_to_set_is_finite;

        let frames = self.frames@;
        let deltas = Seq::new(frames.len(), |i: int| frames[i].delta);
        let checkpoints = Seq::new(
            frames.len(),
            |i: int|
                match frames[i].checkpoint {
                    Some(c) => c,
                    None => frames[i].delta,
                },
        );
        let initial = optional_ids(self.initial_checkpoint);
        let all = initial + deltas.to_set() + checkpoints.to_set();
        assert forall|id: u128| self.referenced().contains(id) implies all.contains(id) by {
            if self.initial_checkpoint != Some(id) {
                let i = choose|i: int|
                    0 <= i < frames.len() && (frames[i].delta == id || frames[i].checkpoint == Some(
                        id,
                    ));
                if frames[i].delta == id {
                    assert(deltas[i] == id);
                    assert(deltas.contains(id));
                } else {
                    assert(checkpoints[i] == id);
                    assert(checkpoints.contains(id));
                }
            }
        }
        deltas.lemma_cardinality_of_set();
        checkpoints.lemma_cardinality_of_set();
        assert(initial.finite() && initial.len() <= 1) by {
            if let Some(id) = self.initial_checkpoint {
                assert(initial =~= Set::<u128>::empty().insert(id));
            }
        }
        vstd::set_lib::lemma_len_union(initial, deltas.to_set());
        vstd::set_lib::lemma_len_union(initial + deltas.to_set(), checkpoints.to_set());
        vstd::set_lib::lemma_len_subset(self.referenced(), all);
    }

    /// How many store writes found their content already stored (wrapping).
    pub closed spec fn deduplicated(&self) -> usize {
        self.store.deduplicated()
    }

    /// How many frames have been recorded (wrapping); it sets the
    /// checkpoint schedule.
    pub closed spec fn frames_recorded(&self) -> usize {
        self.frames_recorded
    }

    /// Every how many recorded frames a full checkpoint is stored.
    pub closed spec fn checkpoint_interval(&self) -> usize {
        self.checkpoint_interval
    }

    /// How many frames have been discarded since the last mark and sweep.
    pub closed spec fn discarded(&self) -> usize {
        self.discarded_since_gc
    }

    /// How many blobs recordings that then failed on a hash collision have
    /// left in the store since the last mark and sweep.
    pub closed spec fn stray_blobs(&self) -> nat {
        self.stray@
    }

    /// The identifier of the checkpoint of the first snapshot, kept until the
    /// first frame falls out of the history.
    pub closed spec fn initial_checkpoint(&self) -> Option<u128> {
        self.initial_checkpoint
    }

    /// The identifiers of the checkpoints that frames hold.
    pub closed spec fn frame_checkpoints(&self) -> Set<u128> {
        Set::new(
            |id: u128|
                exists|i: int| 0 <= i < self.frames@.len() && self.frames@[i].checkpoint == Some(id),
        )
    }

    /// Whether the next recorded frame also stores a full checkpoint.
    pub open spec fn checkpoint_due(&self) -> bool {
        self.frames_recorded().wrapping_add(1) % self.checkpoint_interval() == 0
    }

    /// Whether recording another frame pushes the oldest one out.
    pub open spec fn recording_drops_frame(&self) -> bool {
        self@.history.len() + 1 > self@.capacity
    }

    /// The store after recording `next`, before any mark and sweep: the
    /// frame's delta added, and a checkpoint of `next` when one is due.
    pub open spec fn store_after_recording(&self, next: Seq<u8>) -> StoreContents {
        let delta = spec_encode_delta(self@.current, next)->Ok_0;
        let with_delta = self.stored().insert(blob_id(BlobKind::Delta, delta), (BlobKind::Delta, delta));
        if self.checkpoint_due() {
            with_delta.insert(blob_id(BlobKind::Checkpoint, next), (BlobKind::Checkpoint, next))
        } else {
            with_delta
        }
    }

    /// The deduplicated-write count after recording `next`: one more for the
    /// delta when it is already stored, and one more for a due checkpoint
    /// when that is already stored.
    pub open spec fn dedup_after_recording(&self, next: Seq<u8>) -> usize {
        let delta = spec_encode_delta(self@.current, next)->Ok_0;
        let delta_id = blob_id(BlobKind::Delta, delta);
        let with_delta = self.stored().insert(delta_id, (BlobKind::Delta, delta));
        let after_delta = if self.stored().contains_key(delta_id) {
            self.deduplicated().wrapping_add(1)
        } else {
            self.deduplicated()
        };
        if self.checkpoint_due() && with_delta.contains_key(blob_id(BlobKind::Checkpoint, next)) {
            after_delta.wrapping_add(1)
        } else {
            after_delta
        }
    }

    /// Whether `self` is a new timeline for `capacity` frames and the
    /// checkpoint interval `checkpoint_interval`: nothing recorded, and the
    /// store holding only a checkpoint of the present snapshot.
    pub open spec fn is_fresh(&self, capacity: usize, checkpoint_interval: usize) -> bool {
        let id = blob_id(BlobKind::Checkpoint, self@.current);
        &&& self.wf()
        &&& self@.history == Seq::<Seq<u8>>::empty()
        &&& self@.capacity == capacity
        &&& self.stored() == StoreContents::empty().insert(id, (BlobKind::Checkpoint, self@.current))
        &&& self.deduplicated() == 0
        &&& self.frames_recorded() == 0
        &&& self.checkpoint_interval() == if checkpoint_interval == 0 {
            1
        } else {
            checkpoint_interval
        }
        &&& self.discarded() == 0
        &&& self.stray_blobs() == 0
        &&& self.initial_checkpoint() == Some(id)
    }

    /// Whether `self` is `before` after recording `next`: the frame is
    /// recorded, the store gains the frame's delta and a due checkpoint, the
    /// count of discarded frames grows when the oldest frame falls out, and a
    /// mark and sweep runs once that count reaches [`GC_INTERVAL`].
    pub open spec fn recorded_from(&self, before: Timeline, next: Seq<u8>) -> bool {
        let dropped: int = if before.recording_drops_frame() {
            1
        } else {
            0
        };
        &&& self@ == before@.recorded(next)
        &&& self.frames_recorded() == before.frames_recorded().wrapping_add(1)
        &&& self.checkpoint_interval() == before.checkpoint_interval()
        &&& self.deduplicated() == before.dedup_after_recording(next)
        &&& self.initial_checkpoint() == if before.recording_drops_frame() {
            None
        } else {
            before.initial_checkpoint()
        }
        &&& if before.discarded() + dropped >= GC_INTERVAL {
            &&& self.stored() == before.store_after_recording(next).restrict(self.referenced())
            &&& self.discarded() == 0
            &&& self.stray_blobs() == 0
        } else {
            &&& self.stored() == before.store_after_recording(next)
            &&& self.discarded() == before.discarded() + dropped
            &&& self.stray_blobs() == before.stray_blobs()
        }
    }

    /// Whether `self` is `before` rewound one frame: the newest frame is
    /// dropped, the count of discarded frames grows, and a mark and sweep runs
    /// once that count reaches [`GC_INTERVAL`]; nothing else changes.
    pub open spec fn rewound_from(&self, before: Timeline) -> bool {
        &&& self@ == before@.rewound()
        &&& self.frames_recorded() == before.frames_recorded()
        &&& self.checkpoint_interval() == before.checkpoint_interval()
        &&& self.deduplicated() == before.deduplicated()
        &&& self.initial_checkpoint() == before.initial_checkpoint()
        &&& if before.discarded() + 1 >= GC_INTERVAL {
            &&& self.stored() == before.stored().restrict(self.referenced())
            &&& self.discarded() == 0
            &&& self.stray_blobs() == 0
        } else {
            &&& self.stored() == before.stored()
            &&& self.discarded() == before.discarded() + 1
            &&& self.stray_blobs() == before.stray_blobs()
        }
    }

    /// Whether recording `next` meets a different blob under the same content
    /// identifier, either for the frame's delta or for its checkpoint when
    /// one is due.
    pub open spec fn record_collides(&self, next: Seq<u8>) -> bool {
        let delta = spec_encode_delta(self@.current, next)->Ok_0;
        let with_delta = self.stored().insert(blob_id(BlobKind::Delta, delta), (BlobKind::Delta, delta));
        ||| !accepts(self.stored(), BlobKind::Delta, delta)
        ||| self.checkpoint_due() && !accepts(with_delta, BlobKind::Checkpoint, next)
    }

    /// The blobs that recording `next` writes: the frame's delta, and a
    /// checkpoint of `next` when one is due.
    pub open spec fn recording_blobs(&self, next: Seq<u8>) -> Set<u128> {
        let delta = spec_encode_delta(self@.current, next)->Ok_0;
        let written = set![blob_id(BlobKind::Delta, delta)];
        if self.checkpoint_due() {
            written.insert(blob_id(BlobKind::Checkpoint, next))
        } else {
            written
        }
    }

    /// Starts a history at the snapshot `current` that keeps up to
    /// `capacity` frames and stores a full checkpoint every
    /// `checkpoint_interval` frames (at least every frame).
    pub fn from_snapshot(current: Vec<u8>, capacity: usize, checkpoint_interval: usize) -> (result:
        Result<Self, TimelineError>)
        ensures
            result is Err <==> current@.len() > MAX_XOR_SNAPSHOT,
            result is Err ==> result == Err::<Self, TimelineError>(TimelineError::StateTooLarge),
            result matches Ok(timeline) ==> timeline.is_fresh(capacity, checkpoint_interval)
                && timeline@.current == current@,
    {
        if current.len() > MAX_XOR_SNAPSHOT {
            return Err(TimelineError::StateTooLarge);
        }
        let mut store = ContentStore::new();
        let initial_checkpoint = store.insert(BlobKind::Checkpoint, slice_to_vec(current.as_slice()))?;
        let timeline = Timeline {
            store,
            frames: VecDeque::with_capacity(capacity.min(4096)),
            current,
            initial_checkpoint: Some(initial_checkpoint),
            capacity,
            checkpoint_interval: checkpoint_interval.max(1),
            frames_recorded: 0,
            discarded_since_gc: 0,
            history: Ghost(Seq::empty()),
            stray: Ghost(0),
        };
        Ok(timeline)
    }

    /// Starts a history at the present snapshot of `state`; see
    /// [`Timeline::from_snapshot`].
    pub fn new<S: SnapshotState>(state: &S, capacity: usize, checkpoint_interval: usize) -> (result:
        Result<Self, TimelineError>)
        ensures
            result is Err <==> state.snapshot().len() > MAX_XOR_SNAPSHOT,
            result is Err ==> result == Err::<Self, TimelineError>(TimelineError::StateTooLarge),
            result matches Ok(timeline) ==> timeline.is_fresh(capacity, checkpoint_interval)
                && timeline@.current == state.snapshot(),
    {
        Self::from_snapshot(state.encode_snapshot(), capacity, checkpoint_interval)
    }

    /// Whether there is a frame to rewind to.
    pub fn can_rewind(&self) -> (can: bool)
        requires
            self.wf(),
        ensures
            can == (self@.history.len() > 0),
    {
        self.frames.len() != 0
    }

    /// Number of frames that can be rewound.
    pub fn available_frames(&self) -> (frames: usize)
        requires
            self.wf(),
        ensures
            frames == self@.history.len(),
    {
        self.frames.len()
    }

    /// The most frames the history keeps.
    pub fn capacity(&self) -> (capacity: usize)
        ensures
            capacity == self@.capacity,
    {
        self.capacity
    }

    /// Drops every stored blob that the history no longer refers to.
    pub fn collect_garbage(&mut self)
        requires
            old(self).wf(),
        ensures
            final(self).wf(),
            final(self)@ == old(self)@,
            final(self).stored() == old(self).stored().restrict(old(self).referenced()),
            final(self).referenced() == old(self).referenced(),
            final(self).deduplicated() == old(self).deduplicated(),
            final(self).frames_recorded() == old(self).frames_recorded(),
            final(self).checkpoint_interval() == old(self).checkpoint_interval(),
            final(self).initial_checkpoint() == old(self).initial_checkpoint(),
            final(self).discarded() == 0,
            final(self).stray_blobs() == 0,
    {
        self.sweep();
    }

    /// Mark and sweep: keeps exactly the blobs that the history refers to,
    /// and restarts the count of discarded frames.
    fn sweep(&mut self)
        requires
            old(self).wf_core(),
        ensures
            final(self).wf(),
            final(self)@ == old(self)@,
            final(self).stored() == old(self).stored().restrict(old(self).referenced()),
            final(self).referenced() == old(self).referenced(),
            final(self).deduplicated() == old(self).deduplicated(),
            final(self).frames_recorded() == old(self).frames_recorded(),
            final(self).checkpoint_interval() == old(self).checkpoint_interval(),
            final(self).initial_checkpoint() == old(self).initial_checkpoint(),
            final(self).discarded() == 0,
            final(self).stray_blobs() == 0,
    {
        let mut live: HashSet<u128> = HashSet::with_capacity(
            self.frames.len().saturating_add(self.frames.len()).saturating_add(1),
        );
        if let Some(initial) = self.initial_checkpoint {
            live.insert(initial);
        }
        let mut i: usize = 0;
        while i < self.frames.len()
            invariant
                i <= self.frames@.len(),
                self.wf_core(),
                self == old(self),
                forall|id: u128|
                    #[trigger] live@.contains(id) <==> (self.initial_checkpoint == Some(id)
                        || exists|j: int|
                        0 <= j < i && (self.frames@[j].delta == id || self.frames@[j].checkpoint
                            == Some(id))),
            decreases self.frames@.len() - i,
        {
            let frame = self.frames[i];
            live.insert(frame.delta);
            if let Some(checkpoint) = frame.checkpoint {
                live.insert(checkpoint);
            }
            i += 1;
        }
        assert(live@ =~= self.referenced());
        let ghost before = self.stored();
        self.store.retain(&live);
        self.discarded_since_gc = 0;
        self.stray = Ghost(0);
        proof {
            self.lemma_referenced_bound();
            self.store.lemma_contents_finite();
            assert(self.store.contents().dom().subset_of(self.referenced()));
            vstd::set_lib::lemma_len_subset(self.store.contents().dom(), self.referenced());
            assert forall|id: u128| #[trigger] before.contains_key(id) && live@.contains(id) implies
                self.store.contents().contains_key(id) && self.store.contents()[id] == before[id] by {}
            assert forall|k: int| 0 <= k < self.frames@.len() implies live@.contains(
                #[trigger] self.frames@[k].delta,
            ) && (self.frames@[k].checkpoint matches Some(c) ==> live@.contains(c)) by {}
            lemma_backed_keep(before, self.store.contents(), live@, self.frames@, self.history@, self.current@);
            if let Some(c) = self.initial_checkpoint {
                assert(live@.contains(c));
            }
        }
    }

    /// Collects garbage once enough frames have been discarded.
    fn collect_garbage_if_needed(&mut self)
        requires
            old(self).wf_core(),
            old(self).discarded_since_gc <= GC_INTERVAL,
        ensures
            final(self).wf(),
            final(self)@ == old(self)@,
            final(self).deduplicated() == old(self).deduplicated(),
            final(self).referenced() == old(self).referenced(),
            final(self).frames_recorded() == old(self).frames_recorded(),
            final(self).checkpoint_interval() == old(self).checkpoint_interval(),
            final(self).initial_checkpoint() == old(self).initial_checkpoint(),
            old(self).discarded() >= GC_INTERVAL ==> final(self).stored() == old(
                self,
            ).stored().restrict(old(self).referenced()) && final(self).discarded() == 0
                && final(self).stray_blobs() == 0,
            old(self).discarded() < GC_INTERVAL ==> final(self).stored() == old(self).stored()
                && final(self).discarded() == old(self).discarded() && final(self).stray_blobs()
                == old(self).stray_blobs(),
    {
        if self.discarded_since_gc >= GC_INTERVAL {
            self.sweep();
        }
    }

    /// Records `next` as the snapshot of the next frame.
    pub fn record_snapshot(&mut self, next: Vec<u8>) -> (result: Result<(), TimelineError>)
        requires
            old(self).wf(),
        ensures
            final(self).wf(),
            result is Ok <==> next@.len() <= MAX_XOR_SNAPSHOT && !old(
                self,
            ).record_collides(next@),
            final(self).stored().dom().subset_of(
                old(self).stored().dom().union(old(self).recording_blobs(next@)),
            ),
            next@.len() > MAX_XOR_SNAPSHOT ==> *final(self) == *old(self),
            match result {
                Ok(()) => final(self).recorded_from(*old(self), next@),
                Err(error) => {
                    &&& final(self)@ == old(self)@
                    &&& final(self).stray_blobs() <= old(self).stray_blobs() + 1
                    &&& error == if next@.len() > MAX_XOR_SNAPSHOT {
                        TimelineError::StateTooLarge
                    } else {
                        TimelineError::HashCollision
                    }
                },
            },
    {
        if next.len() > MAX_XOR_SNAPSHOT {
            return Err(TimelineError::StateTooLarge);
        }
        let ghost old_contents = self.store.contents();
        proof {
            self.store.lemma_contents_finite();
        }
        let encoded_delta = match encode_delta(self.current.as_slice(), next.as_slice()) {
            Ok(bytes) => bytes,
            Err(error) => return Err(error),
        };
        let ghost delta_bytes = encoded_delta@;
        let delta = match self.store.insert(BlobKind::Delta, encoded_delta) {
            Ok(id) => id,
            Err(error) => return Err(error),
        };
        proof {
            lemma_backed_grow(old_contents, self.store.contents(), self.frames@, self.history@, self.current@);
            assert(self.store.contents().dom() =~= old_contents.dom().insert(delta));
            assert(self.store.contents().dom().len() <= old_contents.dom().len() + 1);
        }
        self.frames_recorded = self.frames_recorded.wrapping_add(1);
        let ghost with_delta = self.store.contents();
        let checkpoint = if self.frames_recorded % self.checkpoint_interval == 0 {
            match self.store.insert(BlobKind::Checkpoint, slice_to_vec(next.as_slice())) {
                Ok(id) => Some(id),
                Err(error) => {
                    self.stray = Ghost(self.stray@ + 1);
                    return Err(error);
                },
            }
        } else {
            None
        };
        proof {
            lemma_backed_grow(with_delta, self.store.contents(), self.frames@, self.history@, self.current@);
            if let Some(c) = checkpoint {
                assert(self.store.contents().dom() =~= with_delta.dom().insert(c));
            }
            assert(self.store.contents().dom().len() <= old_contents.dom().len() + 2);
        }
        let frame = FrameDelta { delta, checkpoint, logical_bytes: next.len() };
        proof {
            lemma_backed_push(self.store.contents(), self.frames@, self.history@, self.current@, frame, next@);
        }
        let ghost old_history = self.history@;
        let ghost old_current = self.current@;
        self.frames.push_back(frame);
        self.current = next;
        self.history = Ghost(old_history.push(old_current));
        if self.frames.len() > self.capacity {
            proof {
                lemma_backed_drop_first(self.store.contents(), self.frames@, self.history@, self.current@);
            }
            let ghost grown = self.history@;
            self.frames.pop_front();
            self.initial_checkpoint = None;
            self.discarded_since_gc += 1;
            self.history = Ghost(grown.drop_first());
            assert(self.frames@ =~= old(self).frames@.push(frame).drop_first());
        }
        self.collect_garbage_if_needed();
        Ok(())
    }

    /// Records the next frame of `state`; see [`Timeline::record_snapshot`].
    pub fn record<S: SnapshotState>(&mut self, state: &S) -> (result: Result<(), TimelineError>)
        requires
            old(self).wf(),
        ensures
            final(self).wf(),
            result is Ok <==> state.snapshot().len() <= MAX_XOR_SNAPSHOT && !old(
                self,
            ).record_collides(state.snapshot()),
            result is Ok ==> final(self).stored().dom().subset_of(
                old(self).stored().dom().union(old(self).recording_blobs(state.snapshot())),
            ),
            match result {
                Ok(()) => final(self).recorded_from(*old(self), state.snapshot()),
                Err(TimelineError::StateTooLarge) => *final(self) == *old(self),
                Err(error) => {
                    &&& final(self)@ == old(self)@
                    &&& error == TimelineError::HashCollision
                },
            },
    {
        self.record_snapshot(state.encode_snapshot())
    }

    /// The snapshot one frame back, read from the store, or `None` when
    /// there is no frame to rewind to.
    pub fn previous_snapshot(&self) -> (result: Result<Option<Vec<u8>>, TimelineError>)
        requires
            self.wf(),
        ensures
            self@.history.len() == 0 ==> result == Ok::<Option<Vec<u8>>, TimelineError>(None),
            self@.history.len() > 0 ==> (result matches Ok(Some(bytes)) && bytes@
                == self@.history.last()),
    {
        if self.frames.len() == 0 {
            return Ok(None);
        }
        let frame = self.frames[self.frames.len() - 1];
        let ghost last = self.frames@.len() - 1;
        proof {
            assert(frame_backed(
                self.store.contents(),
                self.frames@[last],
                self.history@[last],
                after_of(self.history@, self.current@, last),
            ));
            self.store.lemma_ids_match();
            lemma_delta_round_trip(self.history@[last], self.current@);
        }
        let delta = self.store.get(frame.delta, BlobKind::Delta)?;
        let previous = apply_delta_backwards(self.current.as_slice(), delta)?;
        Ok(Some(previous))
    }

    /// Drops the newest frame, making `previous` (its snapshot) the present.
    pub fn commit_rewind(&mut self, previous: Vec<u8>)
        requires
            old(self).wf(),
            old(self)@.history.len() > 0,
            previous@ == old(self)@.history.last(),
        ensures
            final(self).wf(),
            final(self).rewound_from(*old(self)),
            final(self).stored().dom().subset_of(old(self).stored().dom()),
    {
        proof {
            lemma_backed_drop_last(self.store.contents(), self.frames@, self.history@, self.current@);
        }
        let ghost old_history = self.history@;
        self.frames.pop_back();
        self.current = previous;
        self.history = Ghost(old_history.drop_last());
        assert(self.frames@ =~= old(self).frames@.drop_last());
        self.discarded_since_gc += 1;
        self.collect_garbage_if_needed();
    }

    /// Moves `state` one recorded frame back: restores it from the bytes of
    /// [`Timeline::previous_snapshot`] and, once the state accepts them,
    /// drops the newest frame with [`Timeline::commit_rewind`]. Returns `false`, changing nothing, when there
    /// is no frame to rewind to.
    pub fn rewind<S: SnapshotState>(&mut self, state: &mut S) -> (result: Result<bool, TimelineError>)
        requires
            old(self).wf(),
        ensures
            final(self).wf(),
            old(self)@.history.len() == 0 ==> result == Ok::<bool, TimelineError>(false)
                && *final(self) == *old(self) && *final(state) == *old(state),
            old(self)@.history.len() > 0 ==> (result is Ok <==> old(state).accepts_snapshot(
                old(self)@.history.last(),
            )),
            old(self)@.history.len() > 0 ==> match result {
                Ok(rewound) => {
                    &&& rewound
                    &&& final(self).rewound_from(*old(self))
                    &&& final(state).snapshot() == old(self)@.history.last()
                },
                Err(TimelineError::Snapshot(reason)) => {
                    &&& reason@ == old(state).refusal(old(self)@.history.last())
                    &&& *final(self) == *old(self)
                    &&& *final(state) == *old(state)
                },
                Err(_) => false,
            },
            final(self).stored().dom().subset_of(old(self).stored().dom()),
    {
        let previous = match self.previous_snapshot()? {
            Some(bytes) => bytes,
            None => return Ok(false),
        };
        match state.restore_snapshot(previous.as_slice()) {
            Ok(()) => {},
            Err(reason) => return Err(TimelineError::Snapshot(reason)),
        }
        self.commit_rewind(previous);
        Ok(true)
    }

    /// Measurements of the history and of the store behind it.
    pub fn stats(&self) -> (stats: TimelineStats)
        requires
            self.wf(),
        ensures
            stats.rewindable_frames == self@.history.len(),
            stats.capacity_frames == self@.capacity,
            stats.blob_count == self.stored().len(),
            stats.stored_payload_bytes == saturate(payload_bytes(self.stored())),
            stats.logical_snapshot_bytes == saturate(self@.logical_bytes()),
            stats.deduplicated_writes == self.deduplicated(),
    {
        let ghost afters = self@.after_snapshots();
        let mut logical: usize = self.current.len();
        let mut i: usize = 0;
        while i < self.frames.len()
            invariant
                self.wf(),
                i <= self.frames@.len(),
                afters == self@.after_snapshots(),
                afters.len() == self.frames@.len(),
                logical == saturate(self.current@.len() + total_len(afters.take(i as int))),
            decreases self.frames@.len() - i,
        {
            proof {
                assert(frame_backed(
                    self.store.contents(),
                    self.frames@[i as int],
                    self.history@[i as int],
                    after_of(self.history@, self.current@, i as int),
                ));
                assert(afters[i as int] == after_of(self.history@, self.current@, i as int));
                assert(afters.take(i + 1).drop_last() =~= afters.take(i as int));
            }
            logical = logical.saturating_add(self.frames[i].logical_bytes);
            i += 1;
        }
        assert(afters.take(i as int) =~= afters);
        TimelineStats {
            rewindable_frames: self.frames.len(),
            capacity_frames: self.capacity,
            blob_count: self.store.blob_count(),
            stored_payload_bytes: self.store.byte_len(),
            logical_snapshot_bytes: logical,
            deduplicated_writes: self.store.deduplicated_writes(),
        }
    }
}

/// The model after recording each snapshot of `snapshots` in turn.
pub open spec fn record_all(model: TimelineModel, snapshots: Seq<Seq<u8>>) -> TimelineModel
    decreases snapshots.len(),
{
    if snapshots.len() == 0 {
        model
    } else {
        record_all(model, snapshots.drop_last()).recorded(snapshots.last())
    }
}

/// The model after rewinding `n` frames.
pub open spec fn rewind_n(model: TimelineModel, n: nat) -> TimelineModel
    decreases n,
{
    if n == 0 {
        model
    } else {
        rewind_n(model, (n - 1) as nat).rewound()
    }
}

/// The last `count` entries of `snapshots` (all of them when there are fewer).
pub open spec fn keep_last(snapshots: Seq<Seq<u8>>, count: nat) -> Seq<Seq<u8>> {
    if snapshots.len() > count {
        snapshots.subrange(snapshots.len() - count, snapshots.len() as int)
    } else {
        snapshots
    }
}

/// Law: rewinding right after recording gives back exactly the timeline
/// before the recording, as long as the history had room for the frame.
pub proof fn lemma_rewind_undoes_record(model: TimelineModel, next: Seq<u8>)
    requires
        model.history.len() < model.capacity,
    ensures
        model.recorded(next).rewound() == model,
{
    assert(model.history.push(model.current).drop_last() =~= model.history);
}

/// Law: a well-formed timeline never holds more frames than its capacity.
pub proof fn lemma_history_within_capacity(timeline: &Timeline)
    requires
        timeline.wf(),
    ensures
        timeline@.history.len() <= timeline@.capacity,
{
}

/// Law: after recording a run of snapshots, every frame can be rewound in
/// reverse order; rewinding `j` of `k` recorded frames lands on the state
/// after the first `k - j` recordings, provided the history has room for all
/// of them.
pub proof fn lemma_rewinds_every_recorded_frame(
    model: TimelineModel,
    snapshots: Seq<Seq<u8>>,
    j: nat,
)
    requires
        model.history.len() + snapshots.len() <= model.capacity,
        j <= snapshots.len(),
    ensures
        rewind_n(record_all(model, snapshots), j) == record_all(
            model,
            snapshots.take(snapshots.len() - j),
        ),
    decreases j,
{
    if j > 0 {
        lemma_rewinds_every_recorded_frame(model, snapshots, (j - 1) as nat);
        let shorter = snapshots.take(snapshots.len() - j);
        let longer = snapshots.take(snapshots.len() - (j - 1));
        assert(longer.drop_last() =~= shorter);
        assert(record_all(model, longer) == record_all(model, shorter).recorded(longer.last()));
        lemma_record_all_length(model, shorter);
        lemma_rewind_undoes_record(record_all(model, shorter), longer.last());
    } else {
        assert(snapshots.take(snapshots.len() as int) =~= snapshots);
    }
}

/// Recording within capacity adds one frame per snapshot.
proof fn lemma_record_all_length(model: TimelineModel, snapshots: Seq<Seq<u8>>)
    requires
        model.history.len() + snapshots.len() <= model.capacity,
    ensures
        record_all(model, snapshots).history.len() == model.history.len() + snapshots.len(),
        record_all(model, snapshots).capacity == model.capacity,
    decreases snapshots.len(),
{
    if snapshots.len() > 0 {
        lemma_record_all_length(model, snapshots.drop_last());
    }
}

/// Law: the capacity is a hard rewind limit. After recording a non-empty run
/// of snapshots, the history holds exactly the most recent `capacity` of the
/// snapshots it has passed through, oldest first, and the present is the
/// last one recorded.
pub proof fn lemma_history_keeps_most_recent(model: TimelineModel, snapshots: Seq<Seq<u8>>)
    requires
        model.history.len() <= model.capacity,
        snapshots.len() > 0,
    ensures
        record_all(model, snapshots) == (TimelineModel {
            history: keep_last(
                model.history.push(model.current) + snapshots.drop_last(),
                model.capacity,
            ),
            current: snapshots.last(),
            capacity: model.capacity,
        }),
    decreases snapshots.len(),
{
    let c = model.capacity;
    if snapshots.len() == 1 {
        assert(snapshots.drop_last() =~= Seq::<Seq<u8>>::empty());
        assert(model.history.push(model.current) + snapshots.drop_last() =~= model.history.push(
            model.current,
        ));
        let grown = model.history.push(model.current);
        if grown.len() > c {
            assert(grown.drop_first() =~= grown.subrange(grown.len() - c, grown.len() as int));
        }
        assert(record_all(model, snapshots.drop_last()) == model);
    } else {
        let rest = snapshots.drop_last();
        lemma_history_keeps_most_recent(model, rest);
        let all_rest = model.history.push(model.current) + rest.drop_last();
        let all = model.history.push(model.current) + snapshots.drop_last();
        assert(all =~= all_rest.push(rest.last()));
        let kept = keep_last(all_rest, c);
        let grown = kept.push(rest.last());
        if all_rest.len() > c {
            if c > 0 {
                assert(grown.drop_first() =~= all.subrange(all.len() - c, all.len() as int));
            } else {
                assert(grown.drop_first() =~= all.subrange(all.len() - c, all.len() as int));
            }
        } else if grown.len() > c {
            assert(grown.drop_first() =~= all.subrange(all.len() - c, all.len() as int));
        } else {
            assert(grown =~= all);
        }
    }
}

/// Law: the delta of the newest frame is in the store, filed under its
/// content identifier.
pub proof fn lemma_newest_delta_is_stored(timeline: &Timeline)
    requires
        timeline.wf(),
        timeline@.history.len() > 0,
    ensures
        timeline.stored().contains_key(
            blob_id(
                BlobKind::Delta,
                spec_encode_delta(timeline@.history.last(), timeline@.current)->Ok_0,
            ),
        ),
{
    let last = timeline.frames@.len() - 1;
    assert(frame_backed(
        timeline.store.contents(),
        timeline.frames@[last],
        timeline.history@[last],
        after_of(timeline.history@, timeline.current@, last),
    ));
    timeline.store.lemma_ids_match();
}

/// Law: idle frames share one delta blob. When the newest frame changed
/// nothing, recording the same snapshot again writes no blob that the store
/// does not already hold, unless a checkpoint is due; by
/// [`Timeline::record_snapshot`] the store then does not grow.
pub proof fn lemma_idle_frames_share_one_delta(timeline: &Timeline)
    requires
        timeline.wf(),
        timeline@.history.len() > 0,
        timeline@.history.last() == timeline@.current,
        !timeline.checkpoint_due(),
    ensures
        timeline.recording_blobs(timeline@.current).subset_of(timeline.stored().dom()),
{
    lemma_newest_delta_is_stored(timeline);
}

/// Law: garbage collection never loses history. Every blob that a
/// well-formed timeline refers to is in its store.
pub proof fn lemma_referenced_blobs_are_stored(timeline: &Timeline)
    requires
        timeline.wf(),
    ensures
        timeline.referenced().subset_of(timeline.stored().dom()),
{
    assert forall|id: u128| timeline.referenced().contains(id) implies timeline.stored().dom().contains(
        id,
    ) by {
        if timeline.initial_checkpoint != Some(id) {
            let i = choose|i: int|
                0 <= i < timeline.frames@.len() && (timeline.frames@[i].delta == id
                    || timeline.frames@[i].checkpoint == Some(id));
            assert(frame_backed(
                timeline.store.contents(),
                timeline.frames@[i],
                timeline.history@[i],
                after_of(timeline.history@, timeline.current@, i),
            ));
        }
    }
}

/// The identifiers that an optional identifier names.
pub open spec fn optional_ids(id: Option<u128>) -> Set<u128> {
    match id {
        Some(id) => set![id],
        None => Set::empty(),
    }
}

/// The identifiers of the deltas of a history: for each frame, the delta
/// from the snapshot it leads to back to its own.
pub open spec fn frame_delta_ids(model: TimelineModel) -> Set<u128> {
    Set::new(
        |id: u128|
            exists|i: int|
                0 <= i < model.history.len() && id == blob_id(
                    BlobKind::Delta,
                    spec_encode_delta(model.history[i], after_of(model.history, model.current, i))->Ok_0,
                ),
    )
}

/// What well-formedness guarantees of a timeline's schedule and store: the
/// checkpoint interval is at least one, fewer than [`GC_INTERVAL`] frames
/// wait for a sweep, the store is finite and bounded (law: at most two blobs
/// per frame, two per frame discarded since the last sweep, the initial
/// checkpoint, and the blobs left by recordings that failed on a hash
/// collision), and the initial checkpoint, while kept, holds the oldest
/// reachable snapshot.
pub proof fn lemma_timeline_facts(timeline: &Timeline)
    requires
        timeline.wf(),
    ensures
        timeline.checkpoint_interval() >= 1,
        timeline.discarded() < GC_INTERVAL,
        timeline.stored().dom().finite(),
        timeline.stored().len() <= 2 * timeline@.history.len() + 2 * timeline.discarded() + 1
            + timeline.stray_blobs(),
        timeline@.history.len() <= timeline@.capacity,
        timeline.initial_checkpoint() matches Some(id) ==> {
            &&& id == blob_id(BlobKind::Checkpoint, timeline@.first())
            &&& timeline.stored().contains_key(id)
            &&& timeline.stored()[id] == (BlobKind::Checkpoint, timeline@.first())
        },
{
    timeline.store.lemma_contents_finite();
}

/// Law: the blobs a timeline refers to are determined by its history. They
/// are the initial checkpoint while it is kept, the delta of every frame, and
/// the checkpoints frames hold, each of which is a checkpoint of a snapshot
/// that a frame leads to; with an empty history no frame holds one.
pub proof fn lemma_referenced_follows_history(timeline: &Timeline)
    requires
        timeline.wf(),
    ensures
        timeline.referenced() == optional_ids(timeline.initial_checkpoint()) + frame_delta_ids(
            timeline@,
        ) + timeline.frame_checkpoints(),
        forall|id: u128|
            #[trigger] timeline.frame_checkpoints().contains(id) ==> exists|i: int|
                0 <= i < timeline@.history.len() && id == blob_id(
                    BlobKind::Checkpoint,
                    after_of(timeline@.history, timeline@.current, i),
                ) && timeline.stored().contains_key(id) && timeline.stored()[id] == (
                    BlobKind::Checkpoint,
                    after_of(timeline@.history, timeline@.current, i),
                ),
        timeline@.history.len() == 0 ==> timeline.frame_checkpoints() == Set::<u128>::empty(),
{
    let h = timeline.history@;
    let c = timeline.current@;
    let frames = timeline.frames@;
    let contents = timeline.store.contents();
    timeline.store.lemma_ids_match();
    assert forall|i: int| 0 <= i < frames.len() implies frames[i].delta == blob_id(
        BlobKind::Delta,
        spec_encode_delta(h[i], after_of(h, c, i))->Ok_0,
    ) && (frames[i].checkpoint matches Some(id) ==> id == blob_id(
        BlobKind::Checkpoint,
        after_of(h, c, i),
    ) && contents.contains_key(id) && contents[id] == (BlobKind::Checkpoint, after_of(h, c, i))) by {
        assert(frame_backed(contents, frames[i], h[i], after_of(h, c, i)));
    }
    let rhs = optional_ids(timeline.initial_checkpoint()) + frame_delta_ids(timeline@)
        + timeline.frame_checkpoints();
    assert forall|id: u128| timeline.referenced().contains(id) <==> rhs.contains(id) by {
        if timeline.referenced().contains(id) && timeline.initial_checkpoint != Some(id) {
            let i = choose|i: int|
                0 <= i < frames.len() && (frames[i].delta == id || frames[i].checkpoint == Some(id));
            if frames[i].delta == id {
                assert(frame_delta_ids(timeline@).contains(id));
            } else {
                assert(timeline.frame_checkpoints().contains(id));
            }
        }
        if frame_delta_ids(timeline@).contains(id) {
            let i = choose|i: int|
                0 <= i < h.len() && id == blob_id(
                    BlobKind::Delta,
                    spec_encode_delta(h[i], after_of(h, c, i))->Ok_0,
                );
            assert(frames[i].delta == id);
        }
    }
    assert(timeline.referenced() =~= rhs);
    assert forall|id: u128| #[trigger] timeline.frame_checkpoints().contains(id) implies exists|i: int|
        0 <= i < h.len() && id == blob_id(BlobKind::Checkpoint, after_of(h, c, i))
            && contents.contains_key(id) && contents[id] == (BlobKind::Checkpoint, after_of(h, c, i)) by {
        let i = choose|i: int| 0 <= i < frames.len() && frames[i].checkpoint == Some(id);
        assert(frames[i].checkpoint matches Some(x) && x == id);
    }
    if h.len() == 0 {
        assert(timeline.frame_checkpoints() =~= Set::<u128>::empty());
    }
}

/// Law: along calls that succeed no blob is left behind by a failed
/// recording. A new timeline has none, and a successful recording or rewind
/// keeps it that way.
pub proof fn lemma_successful_calls_leave_no_stray_blobs(
    before: Timeline,
    after: Timeline,
    next: Seq<u8>,
)
    requires
        before.stray_blobs() == 0,
        after.recorded_from(before, next) || after.rewound_from(before),
    ensures
        after.stray_blobs() == 0,
{
}

/// Law: with no blob left by a failed recording, the store holds at most the
/// initial checkpoint, two blobs per frame, and two per frame discarded since
/// the last mark and sweep, which runs before [`GC_INTERVAL`] discards pile
/// up: at most `2 * frames + 239` blobs.
pub proof fn lemma_store_bounded(timeline: &Timeline)
    requires
        timeline.wf(),
        timeline.stray_blobs() == 0,
    ensures
        timeline.stored().len() <= 2 * timeline@.history.len() + 2 * GC_INTERVAL - 1,
{
    lemma_timeline_facts(timeline);
}

/// Law: a timeline made with a checkpoint interval of 0 or 1 stores a
/// checkpoint with every recording; the interval never changes.
pub proof fn lemma_interval_one_checkpoints_every_frame(timeline: &Timeline)
    requires
        timeline.checkpoint_interval() == 1,
    ensures
        timeline.checkpoint_due(),
{
}

/// Law: rewinding walks the history back. After `j` rewinds of a timeline
/// with at least `j` frames, the history is its oldest `len - j` frames and
/// the present is the frame `len - j`, or the present itself when `j` is 0.
pub proof fn lemma_rewinds_walk_the_history(model: TimelineModel, j: nat)
    requires
        j <= model.history.len(),
    ensures
        rewind_n(model, j).history == model.history.take(model.history.len() - j),
        rewind_n(model, j).current == if j == 0 {
            model.current
        } else {
            model.history[model.history.len() - j]
        },
        rewind_n(model, j).capacity == model.capacity,
    decreases j,
{
    if j > 0 {
        lemma_rewinds_walk_the_history(model, (j - 1) as nat);
        let len = model.history.len();
        assert(model.history.take(len - (j - 1)).drop_last() =~= model.history.take(len - j));
    } else {
        assert(model.history.take(model.history.len() as int) =~= model.history);
    }
}

/// Law: recording after rewinding erases the rewound future. Rewinding `m`
/// of a run of recorded snapshots and then recording `next` gives the
/// timeline that recording the first `len - m` snapshots and then `next`
/// gives, as long as the history had room for the run.
pub proof fn lemma_recording_after_rewinds_erases_the_future(
    model: TimelineModel,
    snapshots: Seq<Seq<u8>>,
    m: nat,
    next: Seq<u8>,
)
    requires
        model.history.len() + snapshots.len() <= model.capacity,
        m <= snapshots.len(),
    ensures
        rewind_n(record_all(model, snapshots), m).recorded(next) == record_all(
            model,
            snapshots.take(snapshots.len() - m).push(next),
        ),
{
    lemma_rewinds_every_recorded_frame(model, snapshots, m);
    let kept = snapshots.take(snapshots.len() - m);
    assert(kept.push(next).drop_last() =~= kept);
}

/// Law: garbage collection never makes a later recording fail. A timeline
/// whose store is part of another's, with the same history and schedule,
/// meets no hash collision where the other meets none; rewinding depends on
/// the history alone (see [`Timeline::previous_snapshot`]).
pub proof fn lemma_collected_timeline_records_alike(collected: &Timeline, other: &Timeline)
    requires
        collected@ == other@,
        collected.frames_recorded() == other.frames_recorded(),
        collected.checkpoint_interval() == other.checkpoint_interval(),
        forall|id: u128| #[trigger]
            collected.stored().contains_key(id) ==> other.stored().contains_key(id)
                && collected.stored()[id] == other.stored()[id],
    ensures
        forall|next: Seq<u8>| #[trigger]
            collected.record_collides(next) ==> other.record_collides(next),
{
    assert forall|next: Seq<u8>| #[trigger] collected.record_collides(next) implies other.record_collides(
        next,
    ) by {
        let delta = spec_encode_delta(collected@.current, next)->Ok_0;
        let d = blob_id(BlobKind::Delta, delta);
        let c = blob_id(BlobKind::Checkpoint, next);
        if !accepts(collected.stored(), BlobKind::Delta, delta) {
            assert(collected.stored().contains_key(d));
        } else {
            let t = collected.stored().insert(d, (BlobKind::Delta, delta));
            let u = other.stored().insert(d, (BlobKind::Delta, delta));
            assert(t.contains_key(c));
            assert(u.contains_key(c) && u[c] == t[c]);
        }
    }
}

} // verus!
