use gensokio::frame_buffer::{Agreement, BufferError, FrameBuffer, InputRecord};
use gensokio::input::InputIntent;
use gensokio::bullet::Bullet;
use gensokio::world::SimulationState;

fn fire() -> InputIntent {
    InputIntent { up: false, down: false, left: false, right: false, fire: true }
}

fn left() -> InputIntent {
    InputIntent { up: false, down: false, left: true, right: false, fire: false }
}

#[test]
fn buffer_needs_a_slot() {
    assert!(FrameBuffer::new(0, 2).is_none());
    let buffer = FrameBuffer::new(8, 2).unwrap();
    assert_eq!(buffer.first_frame(), 0);
    assert_eq!(buffer.window_len(), 8);
    assert_eq!(buffer.player_count(), 2);
    assert!(FrameBuffer::starting_at(u32::MAX, 2, 2).is_none());
    assert!(FrameBuffer::starting_at(u32::MAX, 1, 2).is_some());
}

#[test]
fn window_covers_capacity_frames() {
    let buffer = FrameBuffer::starting_at(10, 8, 2).unwrap();
    assert!(!buffer.covers(9));
    assert!(buffer.covers(10));
    assert!(buffer.covers(17));
    assert!(!buffer.covers(18));
}

#[test]
fn local_input_is_confirmed_at_once() {
    let mut buffer = FrameBuffer::new(8, 2).unwrap();
    assert_eq!(buffer.record_at(3, 0), InputRecord::Absent);
    assert_eq!(buffer.record_local(3, 0, fire()), Ok(()));
    assert_eq!(buffer.record_at(3, 0), InputRecord::Confirmed(fire()));
    assert_eq!(buffer.record_at(3, 1), InputRecord::Absent);
    assert_eq!(buffer.record_at(2, 0), InputRecord::Absent);
}

#[test]
fn a_confirmed_input_never_changes() {
    let mut buffer = FrameBuffer::new(8, 2).unwrap();
    assert_eq!(buffer.record_local(3, 0, fire()), Ok(()));
    assert_eq!(buffer.record_local(3, 0, left()), Ok(()));
    assert_eq!(buffer.record_at(3, 0), InputRecord::Confirmed(fire()));
    assert_eq!(buffer.record_remote(3, 0, left()), Ok(Agreement::Matched));
    assert_eq!(buffer.record_at(3, 0), InputRecord::Confirmed(fire()));
    assert_eq!(buffer.resolve(3, 0), Ok(fire()));
    assert_eq!(buffer.record_at(3, 0), InputRecord::Confirmed(fire()));
}

#[test]
fn remote_input_is_held_against_its_prediction() {
    let mut buffer = FrameBuffer::new(8, 2).unwrap();
    assert_eq!(buffer.record_remote(0, 1, fire()), Ok(Agreement::Matched));
    assert_eq!(buffer.resolve(1, 1), Ok(fire()));
    assert_eq!(buffer.record_at(1, 1), InputRecord::Predicted(fire()));
    assert_eq!(buffer.resolve(2, 1), Ok(fire()));
    assert_eq!(buffer.record_remote(1, 1, fire()), Ok(Agreement::Matched));
    assert_eq!(buffer.record_remote(2, 1, left()), Ok(Agreement::Mismatched));
    assert_eq!(buffer.record_at(1, 1), InputRecord::Confirmed(fire()));
    assert_eq!(buffer.record_at(2, 1), InputRecord::Confirmed(left()));
}

#[test]
fn prediction_repeats_the_latest_earlier_input() {
    let mut buffer = FrameBuffer::new(8, 2).unwrap();
    assert_eq!(buffer.predict(0, 1), InputIntent::idle());
    assert_eq!(buffer.predict(5, 1), InputIntent::idle());
    buffer.record_remote(2, 1, fire()).unwrap();
    assert_eq!(buffer.predict(2, 1), InputIntent::idle());
    assert_eq!(buffer.predict(3, 1), fire());
    assert_eq!(buffer.predict(7, 1), fire());
    assert_eq!(buffer.predict(100, 1), fire());
    assert_eq!(buffer.predict(3, 0), InputIntent::idle());
    buffer.record_remote(4, 1, left()).unwrap();
    assert_eq!(buffer.predict(4, 1), fire());
    assert_eq!(buffer.predict(5, 1), left());
    assert_eq!(buffer.predict(5, 9), InputIntent::idle());
    assert_eq!(buffer.record_at(5, 1), InputRecord::Absent);
}

#[test]
fn resolve_frame_gives_one_input_per_handle() {
    let mut buffer = FrameBuffer::new(8, 2).unwrap();
    buffer.record_local(0, 0, left()).unwrap();
    buffer.record_remote(0, 1, fire()).unwrap();
    buffer.record_local(1, 0, fire()).unwrap();
    assert_eq!(buffer.resolve_frame(0), Ok(vec![left(), fire()]));
    assert_eq!(buffer.resolve_frame(1), Ok(vec![fire(), fire()]));
    assert_eq!(buffer.record_at(1, 0), InputRecord::Confirmed(fire()));
    assert_eq!(buffer.record_at(1, 1), InputRecord::Predicted(fire()));
    assert!(!buffer.is_settled(1));
    assert!(buffer.is_settled(0));
    assert_eq!(buffer.resolve_frame(8), Err(BufferError::OutOfWindow));
}

#[test]
fn unknown_handle_is_refused() {
    let mut buffer = FrameBuffer::new(8, 2).unwrap();
    assert_eq!(buffer.record_local(0, 2, fire()), Err(BufferError::UnknownHandle));
    assert_eq!(buffer.record_remote(0, 2, fire()), Err(BufferError::UnknownHandle));
    assert_eq!(buffer.resolve(0, 2), Err(BufferError::UnknownHandle));
    assert_eq!(buffer.record_at(0, 2), InputRecord::Absent);
}

#[test]
fn frames_outside_the_window_are_refused() {
    let mut buffer = FrameBuffer::starting_at(10, 8, 2).unwrap();
    let state = SimulationState::new();
    for frame in [0u32, 9, 18, u32::MAX] {
        assert_eq!(buffer.record_local(frame, 0, fire()), Err(BufferError::OutOfWindow));
        assert_eq!(buffer.record_remote(frame, 1, fire()), Err(BufferError::OutOfWindow));
        assert_eq!(buffer.resolve(frame, 1), Err(BufferError::OutOfWindow));
        assert_eq!(buffer.snapshot(frame, &state), Err(BufferError::OutOfWindow));
        assert_eq!(buffer.restore(frame), Err(BufferError::OutOfWindow));
        assert_eq!(buffer.record_at(frame, 0), InputRecord::Absent);
    }
    assert_eq!(buffer.record_local(9, 7, fire()), Err(BufferError::OutOfWindow));
}

#[test]
fn snapshot_is_restored_for_its_own_frame_only() {
    let mut buffer = FrameBuffer::new(4, 2).unwrap();
    let mut state = SimulationState::new();
    state.bullets.push(Bullet { x: 1, y: 2, age: 3 });
    assert_eq!(buffer.restore(1), Err(BufferError::NoSnapshot));
    assert_eq!(buffer.snapshot(1, &state), Ok(()));
    state.bullets.push(Bullet { x: 4, y: 5, age: 6 });
    let restored = buffer.restore(1).unwrap();
    assert_eq!(restored.bullets, vec![Bullet { x: 1, y: 2, age: 3 }]);
    assert_eq!(buffer.restore(0), Err(BufferError::NoSnapshot));
    assert_eq!(buffer.restore(2), Err(BufferError::NoSnapshot));
    assert_eq!(buffer.snapshot(1, &state), Ok(()));
    assert_eq!(buffer.restore(1).unwrap().bullets.len(), 2);
}

#[test]
fn what_leaves_the_window_is_gone() {
    let mut buffer = FrameBuffer::new(4, 2).unwrap();
    let state = SimulationState::new();
    buffer.record_local(0, 0, fire()).unwrap();
    buffer.record_local(1, 0, left()).unwrap();
    buffer.snapshot(0, &state).unwrap();
    buffer.snapshot(1, &state).unwrap();
    assert_eq!(buffer.advance(), Ok(()));
    assert_eq!(buffer.first_frame(), 1);
    assert_eq!(buffer.restore(0), Err(BufferError::OutOfWindow));
    assert_eq!(buffer.record_at(0, 0), InputRecord::Absent);
    assert_eq!(buffer.record_local(0, 0, fire()), Err(BufferError::OutOfWindow));
    assert_eq!(buffer.record_at(1, 0), InputRecord::Confirmed(left()));
    assert!(buffer.restore(1).is_ok());
    assert_eq!(buffer.record_at(4, 0), InputRecord::Absent);
    assert_eq!(buffer.restore(4), Err(BufferError::NoSnapshot));
    assert_eq!(buffer.predict(1, 0), InputIntent::idle());
    assert_eq!(buffer.predict(2, 0), left());
}

#[test]
fn the_ring_never_serves_an_older_frame_in_a_reused_slot() {
    let mut buffer = FrameBuffer::new(3, 2).unwrap();
    let state = SimulationState::new();
    for frame in 0u32..3 {
        buffer.record_local(frame, 0, fire()).unwrap();
        buffer.snapshot(frame, &state).unwrap();
    }
    for _ in 0..3 {
        buffer.advance().unwrap();
    }
    for frame in 0u32..3 {
        assert_eq!(buffer.restore(frame), Err(BufferError::OutOfWindow));
    }
    for frame in 3u32..6 {
        assert_eq!(buffer.record_at(frame, 0), InputRecord::Absent);
        assert_eq!(buffer.restore(frame), Err(BufferError::NoSnapshot));
    }
}

#[test]
fn the_window_stops_at_the_last_frame_index() {
    let mut buffer = FrameBuffer::starting_at(u32::MAX - 2, 2, 2).unwrap();
    assert_eq!(buffer.advance(), Ok(()));
    assert_eq!(buffer.first_frame(), u32::MAX - 1);
    assert!(buffer.covers(u32::MAX));
    buffer.record_local(u32::MAX, 1, left()).unwrap();
    assert_eq!(buffer.advance(), Err(BufferError::FrameLimit));
    assert_eq!(buffer.first_frame(), u32::MAX - 1);
    assert_eq!(buffer.record_at(u32::MAX, 1), InputRecord::Confirmed(left()));
}
