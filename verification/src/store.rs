//! A content-addressed blob store: equal content is stored once.
use std::collections::HashMap;
use std::collections::HashSet;

use vstd::prelude::*;
use vstd::std_specs::hash::group_hash_axioms;
use vstd::std_specs::iter::IteratorSpec;

use crate::delta::bytes_equal;
use crate::error::TimelineError;
use crate::hash::{blob_id, blob_id_for, BlobKind};

verus! {

broadcast use {group_hash_axioms, vstd::seq_lib::group_seq_properties};

/// One stored blob.
pub struct Blob {
    pub kind: BlobKind,
    pub bytes: Vec<u8>,
}

/// What the store holds, by content identifier: each blob's kind and bytes.
pub type StoreContents = Map<u128, (BlobKind, Seq<u8>)>;

/// Whether a blob can be added to a store without a hash collision: either its
/// identifier is new, or the blob already there is the same.
pub open spec fn accepts(contents: StoreContents, kind: BlobKind, bytes: Seq<u8>) -> bool {
    let id = blob_id(kind, bytes);
    !contents.contains_key(id) || contents[id] == (kind, bytes)
}

/// Total length of the blobs of `contents` filed under `ids`.
pub open spec fn payload_of(contents: StoreContents, ids: Set<u128>) -> nat {
    ids.fold(0nat, |total: nat, id: u128| total + contents[id].1.len())
}

/// Total payload of a store: the sum of the lengths of its blobs.
pub open spec fn payload_bytes(contents: StoreContents) -> nat {
    payload_of(contents, contents.dom())
}

proof fn lemma_payload_insert(contents: StoreContents, ids: Set<u128>, id: u128)
    requires
        ids.finite(),
        !ids.contains(id),
    ensures
        payload_of(contents, ids.insert(id)) == payload_of(contents, ids) + contents[id].1.len(),
{
    let f = |total: nat, id: u128| total + contents[id].1.len();
    assert(vstd::set::fold::is_fun_commutative(f)) by {
        assert forall|a1: u128, a2: u128, b: nat| #[trigger] f(f(b, a1), a2) == f(f(b, a2), a1) by {}
    }
    vstd::set::fold::lemma_fold_insert(ids, 0nat, f, id);
}

/// The payload of some identifiers depends only on the blobs filed under them.
proof fn lemma_payload_agrees(a: StoreContents, b: StoreContents, ids: Set<u128>)
    requires
        ids.finite(),
        forall|id: u128| #[trigger] ids.contains(id) ==> a[id] == b[id],
    ensures
        payload_of(a, ids) == payload_of(b, ids),
    decreases ids.len(),
{
    if ids.len() == 0 {
        assert(ids =~= Set::<u128>::empty());
        let f = |total: nat, id: u128| total + a[id].1.len();
        let g = |total: nat, id: u128| total + b[id].1.len();
        vstd::set::fold::lemma_fold_empty(0nat, f);
        vstd::set::fold::lemma_fold_empty(0nat, g);
    } else {
        let x = ids.choose();
        let rest = ids.remove(x);
        lemma_payload_agrees(a, b, rest);
        lemma_payload_insert(a, rest, x);
        lemma_payload_insert(b, rest, x);
        assert(rest.insert(x) =~= ids);
    }
}

/// An empty store holds no payload.
pub proof fn lemma_payload_empty()
    ensures
        payload_bytes(StoreContents::empty()) == 0,
{
    assert(StoreContents::empty().dom() =~= Set::<u128>::empty());
    vstd::set::fold::lemma_fold_empty(
        0nat,
        |total: nat, id: u128| total + StoreContents::empty()[id].1.len(),
    );
}

/// Filing a new blob adds its length to the payload.
pub proof fn lemma_payload_insert_new(
    contents: StoreContents,
    id: u128,
    blob: (BlobKind, Seq<u8>),
)
    requires
        contents.dom().finite(),
        !contents.contains_key(id),
    ensures
        payload_bytes(contents.insert(id, blob)) == payload_bytes(contents) + blob.1.len(),
{
    let larger = contents.insert(id, blob);
    assert(larger.dom() =~= contents.dom().insert(id));
    lemma_payload_insert(larger, contents.dom(), id);
    lemma_payload_agrees(larger, contents, contents.dom());
}

/// `n`, capped at `usize::MAX`.
pub open spec fn saturate(n: nat) -> usize {
    if n > usize::MAX {
        usize::MAX
    } else {
        n as usize
    }
}

/// An in-memory content-addressed store of delta and checkpoint blobs.
pub struct ContentStore {
    blobs: HashMap<u128, Blob>,
    deduplicated_writes: usize,
}

impl ContentStore {
    /// The blobs held, by identifier.
    pub closed spec fn contents(&self) -> StoreContents {
        Map::new(
            |id: u128| self.blobs@.contains_key(id),
            |id: u128| (self.blobs@[id].kind, self.blobs@[id].bytes@),
        )
    }

    /// How many writes found their content already stored (wrapping).
    pub closed spec fn deduplicated(&self) -> usize {
        self.deduplicated_writes
    }

    /// Every blob is filed under its own content identifier.
    pub closed spec fn wf(&self) -> bool {
        forall|id: u128| #[trigger]
            self.blobs@.contains_key(id) ==> id == blob_id(
                self.blobs@[id].kind,
                self.blobs@[id].bytes@,
            )
    }

    /// An empty store.
    pub fn new() -> (store: Self)
        ensures
            store.wf(),
            store.contents() == StoreContents::empty(),
            store.deduplicated() == 0,
    {
        let store = ContentStore { blobs: HashMap::new(), deduplicated_writes: 0 };
        assert(store.contents() =~= StoreContents::empty());
        store
    }

    /// Stores a blob under its content identifier and returns the identifier.
    /// Content that is already stored is not stored again; a different blob
    /// under the same identifier is a hash collision.
    pub fn insert(&mut self, kind: BlobKind, bytes: Vec<u8>) -> (result: Result<u128, TimelineError>)
        requires
            old(self).wf(),
        ensures
            final(self).wf(),
            result is Ok <==> accepts(old(self).contents(), kind, bytes@),
            match result {
                Ok(id) => {
                    &&& id == blob_id(kind, bytes@)
                    &&& final(self).contents() == old(self).contents().insert(id, (kind, bytes@))
                    &&& final(self).deduplicated() == if old(self).contents().contains_key(id) {
                        old(self).deduplicated().wrapping_add(1)
                    } else {
                        old(self).deduplicated()
                    }
                },
                Err(error) => {
                    &&& error == TimelineError::HashCollision
                    &&& final(self).contents() == old(self).contents()
                    &&& final(self).deduplicated() == old(self).deduplicated()
                },
            },
    {
        let id = blob_id_for(kind, bytes.as_slice());
        match self.blobs.get(&id) {
            Some(existing) => {
                if existing.kind != kind || !bytes_equal(existing.bytes.as_slice(), bytes.as_slice()) {
                    return Err(TimelineError::HashCollision);
                }
                self.deduplicated_writes = self.deduplicated_writes.wrapping_add(1);
                assert(old(self).contents().insert(id, (kind, bytes@)) =~= old(self).contents());
                Ok(id)
            },
            None => {
                self.blobs.insert(id, Blob { kind, bytes });
                assert(self.contents() =~= old(self).contents().insert(id, (kind, bytes@)));
                Ok(id)
            },
        }
    }

    /// The bytes of the blob stored under `id`, checked against its identifier
    /// and the kind the caller expects.
    pub fn get(&self, id: u128, expected: BlobKind) -> (result: Result<&[u8], TimelineError>)
        ensures
            !self.contents().contains_key(id) ==> result == Err::<&[u8], TimelineError>(
                TimelineError::MissingBlob,
            ),
            self.contents().contains_key(id) ==> {
                let (kind, bytes) = self.contents()[id];
                if kind != expected || blob_id(kind, bytes) != id {
                    result == Err::<&[u8], TimelineError>(TimelineError::CorruptBlob)
                } else {
                    result is Ok && result->Ok_0@ == bytes
                }
            },
    {
        let blob = match self.blobs.get(&id) {
            Some(blob) => blob,
            None => return Err(TimelineError::MissingBlob),
        };
        if blob.kind != expected || blob_id_for(blob.kind, blob.bytes.as_slice()) != id {
            return Err(TimelineError::CorruptBlob);
        }
        Ok(blob.bytes.as_slice())
    }

    /// Number of blobs held.
    pub fn blob_count(&self) -> (count: usize)
        ensures
            count == self.contents().len(),
    {
        assert(self.contents().dom() =~= self.blobs@.dom());
        self.blobs.len()
    }

    /// How many writes found their content already stored.
    pub fn deduplicated_writes(&self) -> (count: usize)
        ensures
            count == self.deduplicated(),
    {
        self.deduplicated_writes
    }

    /// Drops every blob whose identifier is not in `live`.
    pub fn retain(&mut self, live: &HashSet<u128>)
        requires
            old(self).wf(),
        ensures
            final(self).wf(),
            final(self).contents() == old(self).contents().restrict(live@),
            final(self).deduplicated() == old(self).deduplicated(),
    {
        let mut doomed: Vec<u128> = Vec::new();
        let ghost mut seen: Seq<u128> = Seq::empty();
        for id in it: self.blobs.keys()
            invariant
                it.seq().unref().to_set() == self.blobs@.dom(),
                seen.len() == it.index(),
                forall|j: int| 0 <= j < it.index() ==> seen[j] == *#[trigger] it.seq()[j],
                forall|j: int|
                    0 <= j < doomed@.len() ==> !live@.contains(#[trigger] doomed@[j])
                        && self.blobs@.contains_key(doomed@[j]),
                forall|k: u128| #[trigger]
                    seen.contains(k) && !live@.contains(k) ==> doomed@.contains(k),
                it.index() == it.seq().len() ==> self.blobs@.dom().subset_of(seen.to_set()),
        {
            if !live.contains(id) {
                doomed.push(*id);
            }
            proof {
                seen = seen.push(*id);
            }
        }
        let ghost kept = old(self).contents().restrict(live@);
        let mut i: usize = 0;
        while i < doomed.len()
            invariant
                i <= doomed@.len(),
                self.deduplicated_writes == old(self).deduplicated_writes,
                forall|id: u128|
                    #[trigger] self.blobs@.contains_key(id) <==> old(self).blobs@.contains_key(id)
                        && !doomed@.subrange(0, i as int).contains(id),
                forall|id: u128|
                    #[trigger] self.blobs@.contains_key(id) ==> self.blobs@[id] == old(
                        self,
                    ).blobs@[id],
            decreases doomed@.len() - i,
        {
            self.blobs.remove(&doomed[i]);
            i += 1;
            assert(doomed@.subrange(0, i as int) =~= doomed@.subrange(0, i - 1).push(doomed@[i - 1]));
        }
        assert(doomed@.subrange(0, i as int) =~= doomed@);
        assert(self.contents() =~= kept);
    }

    /// Total length of all stored blobs, capped at `usize::MAX`.
    pub fn byte_len(&self) -> (total: usize)
        ensures
            total == saturate(payload_bytes(self.contents())),
    {
        let mut total: usize = 0;
        let ghost mut seen: Seq<u128> = Seq::empty();
        let ghost contents = self.contents();
        proof {
            vstd::set::fold::lemma_fold_empty(0nat, |total: nat, id: u128| total + contents[id].1.len());
            assert(seen.to_set() =~= Set::<u128>::empty());
        }
        for id in it: self.blobs.keys()
            invariant
                contents == self.contents(),
                it.seq().unref().to_set() == self.blobs@.dom(),
                it.seq().no_duplicates(),
                seen.len() == it.index(),
                forall|j: int| 0 <= j < it.index() ==> seen[j] == *#[trigger] it.seq()[j],
                seen.no_duplicates(),
                forall|j: int| 0 <= j < seen.len() ==> self.blobs@.contains_key(#[trigger] seen[j]),
                total == saturate(payload_of(contents, seen.to_set())),
                it.index() == it.seq().len() ==> self.blobs@.dom().subset_of(seen.to_set()),
        {
            let blob = self.blobs.get(id).unwrap();
            proof {
                assert(it.seq().unref().to_set().contains(*id));
                assert(*it.seq()[seen.len() as int] == *id);
                assert forall|j: int| 0 <= j < seen.len() implies seen[j] != *id by {
                    assert(seen[j] == *it.seq()[j]);
                }
                assert(!seen.contains(*id));
                lemma_payload_insert(contents, seen.to_set(), *id);
                assert(seen.push(*id).to_set() =~= seen.to_set().insert(*id));
                seen = seen.push(*id);
            }
            total = total.saturating_add(blob.bytes.len());
        }
        assert(seen.to_set() =~= contents.dom());
        total
    }

    /// A store holds finitely many blobs.
    pub proof fn lemma_contents_finite(&self)
        ensures
            self.contents().dom().finite(),
    {
        assert(self.contents().dom() =~= self.blobs@.dom());
    }

    /// Under well-formedness every blob is filed under its own identifier.
    pub proof fn lemma_ids_match(&self)
        requires
            self.wf(),
        ensures
            forall|id: u128| #[trigger]
                self.contents().contains_key(id) ==> blob_id(
                    self.contents()[id].0,
                    self.contents()[id].1,
                ) == id,
    {
    }
}

/// Law: content that is already stored is stored once. After one accepted
/// write, writing the same blob again is accepted, finds it already present
/// (so it counts as a deduplicated write) and leaves the contents unchanged.
pub proof fn lemma_identical_content_stored_once(
    contents: StoreContents,
    kind: BlobKind,
    bytes: Seq<u8>,
)
    requires
        accepts(contents, kind, bytes),
    ensures
        ({
            let id = blob_id(kind, bytes);
            let once = contents.insert(id, (kind, bytes));
            &&& accepts(once, kind, bytes)
            &&& once.contains_key(id)
            &&& once.insert(id, (kind, bytes)) == once
        }),
{
    let id = blob_id(kind, bytes);
    let once = contents.insert(id, (kind, bytes));
    assert(once.insert(id, (kind, bytes)) =~= once);
}

} // verus!
