use unrun::error::TimelineError;
use unrun::events::{GameEvents, StepEvents};

#[test]
fn step_events_accumulate_over_an_update() {
    let mut events = GameEvents {
        gate_latched: true,
        ..GameEvents::default()
    };
    events.include_step(StepEvents {
        jumped: true,
        ..StepEvents::default()
    });
    events.include_step(StepEvents {
        completed: true,
        ..StepEvents::default()
    });
    events.include_step(StepEvents::default());
    assert_eq!(
        events,
        GameEvents {
            jumped: true,
            fixed_point_activated: false,
            gate_latched: true,
            completed: true,
            stage_changed: false,
        }
    );
}

#[test]
fn timeline_errors_read_as_sentences() {
    assert_eq!(
        TimelineError::InvalidDelta("empty blob").message(),
        "invalid timeline delta: empty blob"
    );
    assert_eq!(
        TimelineError::Snapshot("expected 34 bytes, found 3".to_owned()).message(),
        "could not restore snapshot: expected 34 bytes, found 3"
    );
    assert_eq!(
        TimelineError::StateTooLarge.message(),
        "snapshot exceeds the delta format limit"
    );
    assert_eq!(
        TimelineError::HashCollision.message(),
        "content hash collision detected"
    );
    assert_eq!(
        TimelineError::MissingBlob.message(),
        "timeline references a missing blob"
    );
    assert_eq!(
        TimelineError::CorruptBlob.message(),
        "timeline blob failed content verification"
    );
}
