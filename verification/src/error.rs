use vstd::prelude::*;

use vstd::string::StringExecFns;

verus! {

/// Why a timeline operation failed.
#[derive(Debug, PartialEq, Eq)]
pub enum TimelineError {
    /// A stored blob no longer hashes to its own identifier, or has the wrong kind.
    CorruptBlob,
    /// Two different blobs produced the same content identifier.
    HashCollision,
    /// A delta blob is malformed or does not fit the state it is applied to.
    InvalidDelta(&'static str),
    /// A frame refers to a blob that the store does not hold.
    MissingBlob,
    /// The state refused to restore a snapshot; the message is the state's own.
    Snapshot(String),
    /// A snapshot is longer than the delta format can describe.
    StateTooLarge,
}

/// The sentence that describes an error.
pub open spec fn error_message(error: TimelineError) -> Seq<char> {
    match error {
        TimelineError::CorruptBlob => "timeline blob failed content verification"@,
        TimelineError::HashCollision => "content hash collision detected"@,
        TimelineError::InvalidDelta(reason) => "invalid timeline delta: "@ + reason@,
        TimelineError::MissingBlob => "timeline references a missing blob"@,
        TimelineError::Snapshot(reason) => "could not restore snapshot: "@ + reason@,
        TimelineError::StateTooLarge => "snapshot exceeds the delta format limit"@,
    }
}

impl TimelineError {
    /// The error as a sentence, for showing to a player.
    pub fn message(&self) -> (text: String)
        ensures
            text@ == error_message(*self),
    {
        match self {
            TimelineError::CorruptBlob => "timeline blob failed content verification".to_owned(),
            TimelineError::HashCollision => "content hash collision detected".to_owned(),
            TimelineError::InvalidDelta(reason) => {
                let mut text = "invalid timeline delta: ".to_owned();
                text.append(reason);
                text
            },
            TimelineError::MissingBlob => "timeline references a missing blob".to_owned(),
            TimelineError::Snapshot(reason) => {
                let mut text = "could not restore snapshot: ".to_owned();
                text.append(reason.as_str());
                text
            },
            TimelineError::StateTooLarge => "snapshot exceeds the delta format limit".to_owned(),
        }
    }
}

} // verus!
