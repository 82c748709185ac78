use madeleine::command_log::{CommandLog, DurableLog};
use madeleine::counter::{Action, CounterState};
use madeleine::memory::{MemoryLog, MemorySnapshots};
use madeleine::snapshot::SnapshotTable;
use madeleine::Command;
use madeleine::Madeleine;
use madeleine::MadeleineError;
use madeleine::Persistent;

fn memory_engine() -> Madeleine<CounterState, MemoryLog, MemorySnapshots> {
    Madeleine::new(MemoryLog::new(), MemorySnapshots::new(), CounterState::new)
}

fn panda() -> Vec<u8> {
    "panda".as_bytes().to_vec()
}

#[test]
fn append_before_apply_on_success() {
    let mut engine = memory_engine();

    assert_eq!(engine.len().unwrap(), 0);

    let seq = engine
        .execute_command(Action::Increment(panda(), 5))
        .expect("append should succeed on a healthy log");

    assert_eq!(seq, 0);
    assert_eq!(engine.len().unwrap(), 1);
    assert_eq!(engine.tap().get(&panda()), Some(5));
}

#[test]
fn append_fault_leaves_state_unchanged() {
    let mut engine = Madeleine::new(
        MemoryLog::with_fault(0),
        MemorySnapshots::new(),
        CounterState::new,
    );

    let before = engine.tap().get(&panda());
    let result = engine.execute_command(Action::Increment(panda(), 5));

    assert_eq!(result.unwrap_err(), MadeleineError::StorageFailure);
    assert_eq!(engine.len().unwrap(), 0);
    assert_eq!(engine.tap().get(&panda()), before);
}

#[test]
fn storage_fault_on_fifth_command() {
    let mut engine = Madeleine::new(
        MemoryLog::with_fault(4),
        MemorySnapshots::new(),
        CounterState::new,
    );

    for amount in [1u64, 2, 3, 4] {
        engine
            .execute_command(Action::Increment(panda(), amount))
            .expect("the first four commands should succeed");
    }

    let fifth = engine.execute_command(Action::Increment(panda(), 100));

    assert_eq!(fifth.unwrap_err(), MadeleineError::StorageFailure);
    assert_eq!(engine.len().unwrap(), 4);
    assert_eq!(engine.tap().get(&panda()), Some(10));
}

#[test]
fn scenario_increment_then_decrement() {
    let mut engine = memory_engine();

    assert_eq!(engine.len().unwrap(), 0);

    engine
        .execute_command(Action::Increment(panda(), 5))
        .expect("increment should succeed");
    assert_eq!(engine.len().unwrap(), 1);
    assert_eq!(engine.tap().get(&panda()), Some(5));

    engine
        .execute_command(Action::Decrement(panda(), 2))
        .expect("decrement should succeed");
    assert_eq!(engine.tap().get(&panda()), Some(3));
    assert_eq!(engine.len().unwrap(), 2);
}

#[test]
fn repeated_taps_return_identical_results() {
    let mut engine = memory_engine();

    engine
        .execute_command(Action::Increment(panda(), 7))
        .expect("increment should succeed");

    let first = engine.tap();
    let second = engine.tap();

    assert_eq!(first.get(&panda()), second.get(&panda()));
    assert_eq!(first.get("absent".as_bytes()), second.get("absent".as_bytes()));
}

#[test]
fn replay_reconstructs_state() {
    let temp_dir = tempfile::TempDir::new().expect("unable to create temp dir in test");
    let log_path = temp_dir.path().join("log.db");
    let snapshot_path = temp_dir.path().join("snapshots.db");
    let log_path = log_path.to_str().expect("utf-8 path in test");
    let snapshot_path = snapshot_path.to_str().expect("utf-8 path in test");

    let log = CommandLog::new(log_path).expect("unable to open log");
    let snapshots = SnapshotTable::new(snapshot_path).expect("unable to open snapshots");
    let mut engine = Madeleine::new(log, snapshots, CounterState::new);

    engine
        .execute_command(Action::Increment(panda(), 10))
        .expect("increment should succeed");
    engine
        .execute_command(Action::Increment("red".as_bytes().to_vec(), 3))
        .expect("increment should succeed");
    engine
        .execute_command(Action::Decrement(panda(), 4))
        .expect("decrement should succeed");

    let live = engine.into_inner();

    let log = CommandLog::new(log_path).expect("unable to reopen log");
    let snapshots = SnapshotTable::new(snapshot_path).expect("unable to reopen snapshots");
    let resumed = Madeleine::<CounterState, CommandLog, SnapshotTable>::resume::<Action, _>(
        log,
        snapshots,
        CounterState::new,
    )
    .expect("resume should succeed");
    let replayed = resumed.into_inner();

    assert_eq!(live.get(&panda()), Some(6));
    assert_eq!(replayed.get(&panda()), live.get(&panda()));
    assert_eq!(replayed.get("red".as_bytes()), live.get("red".as_bytes()));
    assert_eq!(replayed.get("absent".as_bytes()), live.get("absent".as_bytes()));
}

#[test]
fn snapshot_plus_replay_matches_full_replay() {
    let temp_dir = tempfile::TempDir::new().expect("unable to create temp dir in test");
    let log_path = temp_dir.path().join("log.db");
    let snapshot_path = temp_dir.path().join("snapshots.db");
    let log_path = log_path.to_str().expect("utf-8 path in test");
    let snapshot_path = snapshot_path.to_str().expect("utf-8 path in test");

    let log = CommandLog::new(log_path).expect("unable to open log");
    let snapshots = SnapshotTable::new(snapshot_path).expect("unable to open snapshots");
    let mut engine = Madeleine::new(log, snapshots, CounterState::new);

    engine
        .execute_command(Action::Increment(panda(), 10))
        .expect("increment should succeed");
    engine
        .execute_command(Action::Increment("red".as_bytes().to_vec(), 3))
        .expect("increment should succeed");

    let snapshot_id = engine.take_snapshot().expect("snapshot should succeed");
    assert_eq!(snapshot_id, 0);

    engine
        .execute_command(Action::Decrement(panda(), 4))
        .expect("decrement should succeed");
    engine
        .execute_command(Action::Increment("blue".as_bytes().to_vec(), 1))
        .expect("increment should succeed");

    let live = engine.into_inner();

    let log = CommandLog::new(log_path).expect("unable to reopen log");
    let snapshots = SnapshotTable::new(snapshot_path).expect("unable to reopen snapshots");
    let resumed = Madeleine::<CounterState, CommandLog, SnapshotTable>::resume::<Action, _>(
        log,
        snapshots,
        CounterState::new,
    )
    .expect("resume should succeed");
    let replayed = resumed.into_inner();

    assert_eq!(replayed.get(&panda()), live.get(&panda()));
    assert_eq!(replayed.get("red".as_bytes()), live.get("red".as_bytes()));
    assert_eq!(replayed.get("blue".as_bytes()), live.get("blue".as_bytes()));
}

#[test]
fn thousand_up_snapshot_thousand_down_resume() {
    let temp_dir = tempfile::TempDir::new().expect("unable to create temp dir in test");
    let log_path = temp_dir.path().join("log.db");
    let snapshot_path = temp_dir.path().join("snapshots.db");
    let log_path = log_path.to_str().expect("utf-8 path in test");
    let snapshot_path = snapshot_path.to_str().expect("utf-8 path in test");

    let log = CommandLog::new(log_path).expect("unable to open log");
    let snapshots = SnapshotTable::new(snapshot_path).expect("unable to open snapshots");
    let mut engine = Madeleine::new(log, snapshots, CounterState::new);

    for _i in 0..1000 {
        engine
            .execute_command(Action::Increment(panda(), 1))
            .expect("unable to execute increment action in test");
    }

    engine.take_snapshot().expect("unable to take snapshot in test");

    for _i in 0..1000 {
        engine
            .execute_command(Action::Decrement(panda(), 1))
            .expect("unable to execute decrement action in test");
    }

    drop(engine);

    let log = CommandLog::new(log_path).expect("unable to reopen log");
    let snapshots = SnapshotTable::new(snapshot_path).expect("unable to reopen snapshots");
    let resumed = Madeleine::<CounterState, CommandLog, SnapshotTable>::resume::<Action, _>(
        log,
        snapshots,
        CounterState::new,
    )
    .expect("unable to resume madeleine in test");

    assert_eq!(resumed.into_inner().get(&panda()), Some(0));
}

#[test]
fn command_round_trip_preserves_execution() {
    let original = Action::Increment(panda(), 613);

    let encoded = original.encode();
    let decoded = Action::decode(&encoded).expect("a command's encoding must decode");

    let from_original = original.execute(CounterState::new());
    let from_decoded = decoded.execute(CounterState::new());

    assert_eq!(from_original.get(&panda()), Some(613));
    assert_eq!(from_decoded.get(&panda()), from_original.get(&panda()));

    let original = Action::Decrement("red".as_bytes().to_vec(), 2);
    let encoded = original.encode();
    let decoded = Action::decode(&encoded).expect("a command's encoding must decode");

    let base = Action::Increment("red".as_bytes().to_vec(), 9).execute(CounterState::new());
    let base_again = Action::Increment("red".as_bytes().to_vec(), 9).execute(CounterState::new());
    let from_original = original.execute(base);
    let from_decoded = decoded.execute(base_again);

    assert_eq!(from_original.get("red".as_bytes()), Some(7));
    assert_eq!(from_decoded.get("red".as_bytes()), from_original.get("red".as_bytes()));
}

#[test]
fn state_round_trip_preserves_counts() {
    let state = Action::Increment(panda(), 11).execute(CounterState::new());
    let state = Action::Increment("red".as_bytes().to_vec(), 22).execute(state);

    let encoded = state.encode();
    let decoded = CounterState::decode(&encoded).expect("a state's encoding must decode");

    assert_eq!(decoded.get(&panda()), Some(11));
    assert_eq!(decoded.get("red".as_bytes()), Some(22));
    assert_eq!(decoded.get("absent".as_bytes()), None);
}

#[test]
fn register_round_trip() {
    let value: u64 = 613;

    let encoded = value.encode();
    assert_eq!(encoded.len(), 8);
    assert_eq!(u64::decode(&encoded), Some(613));
    assert_eq!(u64::decode(&encoded[..7]), None);
}

#[test]
fn command_encoding_layout() {
    let encoded = Action::Increment(vec![0xAA, 0xBB], 613).encode();

    assert_eq!(encoded.len(), 11);
    assert_eq!(encoded[0], 1);
    assert_eq!(&encoded[1..9], &[0x65, 0x02, 0, 0, 0, 0, 0, 0]);
    assert_eq!(&encoded[9..], &[0xAA, 0xBB]);

    let encoded = Action::Decrement(vec![], 1).encode();
    assert_eq!(encoded.len(), 9);
    assert_eq!(encoded[0], 2);
    assert_eq!(&encoded[1..9], &[1, 0, 0, 0, 0, 0, 0, 0]);

    let register: u64 = 613;
    assert_eq!(register.encode(), vec![0x65, 0x02, 0, 0, 0, 0, 0, 0]);
}

#[test]
fn garbage_bytes_do_not_decode() {
    assert!(Action::decode(&[]).is_none());
    assert!(Action::decode(&[9, 9, 9, 9, 9, 9, 9, 9, 9, 9]).is_none());
    assert!(CounterState::decode(&[1, 2, 3]).is_none());
}

#[test]
fn replay_failure_names_offending_record() {
    let mut log = MemoryLog::new();

    let good = Action::Increment(panda(), 5).encode();
    log.append(&good).expect("append should succeed");
    log.append(&[0xFF, 0xFF]).expect("append should succeed");

    let result = Madeleine::<CounterState, MemoryLog, MemorySnapshots>::resume::<Action, _>(
        log,
        MemorySnapshots::new(),
        CounterState::new,
    );

    assert_eq!(result.err().unwrap(), MadeleineError::ReplayFailure(1));
}

#[test]
fn read_from_past_end_returns_nothing() {
    let temp_dir = tempfile::TempDir::new().expect("unable to create temp dir in test");
    let log_path = temp_dir.path().join("log.db");
    let mut log = CommandLog::new(log_path.to_str().expect("utf-8 path in test"))
        .expect("unable to open log");

    for amount in [1u64, 2, 3] {
        log.append_command(Action::Increment(panda(), amount))
            .expect("append should succeed");
    }

    assert_eq!(log.read_from(1).unwrap().len(), 2);
    assert_eq!(log.read_from(3).unwrap().len(), 0);
    assert_eq!(log.read_from(u64::MAX).unwrap().len(), 0);
}

#[test]
fn empty_log_snapshot_fails_closed() {
    let mut engine = memory_engine();

    let result = engine.take_snapshot();

    assert_eq!(result.unwrap_err(), MadeleineError::SnapshotFailure);
}

#[test]
fn snapshot_ids_increase_from_zero() {
    let mut engine = memory_engine();

    engine
        .execute_command(Action::Increment(panda(), 1))
        .expect("increment should succeed");

    assert_eq!(engine.take_snapshot().unwrap(), 0);
    assert_eq!(engine.take_snapshot().unwrap(), 1);
    assert_eq!(engine.take_snapshot().unwrap(), 2);
}

#[test]
fn is_empty_tracks_history() {
    let mut engine = memory_engine();

    assert!(engine.is_empty().unwrap());

    engine
        .execute_command(Action::Increment(panda(), 1))
        .expect("increment should succeed");

    assert!(!engine.is_empty().unwrap());
}

#[test]
fn saturating_counter_arithmetic() {
    let state = Action::Increment(panda(), u64::MAX).execute(CounterState::new());
    let state = Action::Increment(panda(), 10).execute(state);
    assert_eq!(state.get(&panda()), Some(u64::MAX));

    let state = Action::Decrement("red".as_bytes().to_vec(), 3).execute(state);
    assert_eq!(state.get("red".as_bytes()), Some(0));
}

#[test]
fn error_descriptions() {
    assert_eq!(MadeleineError::StorageFailure.describe(), "storage failure");
    assert_eq!(MadeleineError::SerializationFailure.describe(), "serialization failure");
    assert_eq!(MadeleineError::SnapshotFailure.describe(), "snapshot failure");
    assert_eq!(MadeleineError::ReplayFailure(3).describe(), "replay failure");
    assert_eq!(MadeleineError::ConcurrencyFailure.describe(), "concurrency failure");
}
