use foundry::controls::{StorageState, StorageStatus};
use foundry::errors::StorageError;
use foundry::load_queue::{load_outcome, ChunkLoadState};
use foundry::types::{ChunkKey, WorldId};
use foundry::world::ChunkCoord;

fn key(cx: i32) -> ChunkKey {
    ChunkKey::new(WorldId::new("w"), ChunkCoord::new(cx, 0), 0)
}

#[test]
fn each_chunk_is_asked_for_once() {
    let mut state = ChunkLoadState::default();
    assert_eq!(state.max_in_flight, 6);
    state.request(&key(1));
    state.request(&key(2));
    state.request(&key(1));
    assert_eq!(state.queue, vec![key(1), key(2)]);

    assert_eq!(state.start_next(), Some(key(1)));
    state.request(&key(1));
    assert_eq!(state.queue, vec![key(2)]);
    assert_eq!(state.in_flight, vec![key(1)]);
}

#[test]
fn at_most_the_limit_is_read_at_once() {
    let mut state = ChunkLoadState::default();
    state.max_in_flight = 2;
    for cx in 0..4 {
        state.request(&key(cx));
    }
    assert_eq!(state.start_next(), Some(key(0)));
    assert_eq!(state.start_next(), Some(key(1)));
    assert_eq!(state.start_next(), None);
    assert_eq!(state.queue, vec![key(2), key(3)]);

    state.finish(&key(0));
    assert_eq!(state.in_flight, vec![key(1)]);
    assert_eq!(state.start_next(), Some(key(2)));
    state.finish(&key(9));
    assert_eq!(state.in_flight, vec![key(1), key(2)]);
}

#[test]
fn ended_reads_update_the_status() {
    let mut status = StorageStatus::default();
    assert_eq!(load_outcome(Ok(None), &mut status), Some(None));
    assert_eq!(status.state, StorageState::Healthy);

    assert_eq!(load_outcome(Err(StorageError::NotFound), &mut status), Some(None));
    assert_eq!(status.state, StorageState::Healthy);

    assert!(load_outcome(Err(StorageError::PermissionDenied), &mut status).is_none());
    assert_eq!(status.state, StorageState::Degraded);
    assert_eq!(status.detail.as_deref(), Some("storage permission denied"));

    assert!(load_outcome(Err(StorageError::QuotaExceeded), &mut status).is_none());
    assert_eq!(status.state, StorageState::Paused);
    assert_eq!(load_outcome(Ok(None), &mut status), Some(None));
    assert_eq!(status.state, StorageState::Paused);
}

#[test]
fn no_chunk_waits_twice_or_while_being_read() {
    let mut state = ChunkLoadState::default();
    state.max_in_flight = 1;
    for cx in [3, 1, 3, 2, 1] {
        state.request(&key(cx));
    }
    assert_eq!(state.queue, vec![key(3), key(1), key(2)]);
    assert_eq!(state.start_next(), Some(key(3)));
    state.request(&key(3));
    assert_eq!(state.queue, vec![key(1), key(2)]);
    state.finish(&key(3));
    state.request(&key(3));
    assert_eq!(state.queue, vec![key(1), key(2), key(3)]);
    assert!(state.in_flight.is_empty());
}
