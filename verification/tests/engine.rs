use madeleine::command_log::CommandLog;
use madeleine::counter::{Action, CounterState};
use madeleine::snapshot::SnapshotTable;
use madeleine::Madeleine;
use madeleine::Persistent;

fn make_test_madeleine<T: Persistent, C: Fn() -> T>(
    constructor: C,
) -> (tempfile::TempDir, Madeleine<T, CommandLog, SnapshotTable>) {
    let temp_dir = tempfile::TempDir::new().expect("unable to create temp dir in test");

    let log_path = temp_dir.path().join("test_log");
    let snapshot_path = temp_dir.path().join("test_snapshots");

    let log = CommandLog::new(log_path.to_str().expect("utf-8 path in test"))
        .expect("unable to instantiate madeleine in test");
    let snapshots = SnapshotTable::new(snapshot_path.to_str().expect("utf-8 path in test"))
        .expect("unable to instantiate madeleine in test");

    (temp_dir, Madeleine::new(log, snapshots, constructor))
}

#[test]
fn test_init_command_log() {
    let temp_dir = tempfile::TempDir::new().expect("unable to create temp dir in test");

    let db_path = temp_dir.path().join("madeleine.db");

    assert!(!db_path.exists());

    let _command_log = CommandLog::new(db_path.to_str().expect("utf-8 path in test"))
        .expect("unable to instantiate command log in test");

    assert!(db_path.exists());
}

#[test]
fn test_new_creates_command_log() {
    let temp_dir = tempfile::TempDir::new().expect("unable to create temp dir in test");

    let log_path = temp_dir.path().join("test_log");
    let snapshot_path = temp_dir.path().join("test_snapshots");

    let state: u64 = 0;

    assert!(!log_path.exists());

    let log = CommandLog::new(log_path.to_str().expect("utf-8 path in test"))
        .expect("unable to instantiate madeleine in test");
    let snapshots = SnapshotTable::new(snapshot_path.to_str().expect("utf-8 path in test"))
        .expect("unable to instantiate madeleine in test");
    Madeleine::new(log, snapshots, || state);

    assert!(log_path.exists());
}

#[test]
fn test_into_inner() {
    let state: u64 = 42;
    let (_temp_dir, madeleine) = make_test_madeleine(|| state);

    assert_eq!(state, madeleine.into_inner());
}

#[test]
fn test_new_sets_constructor_result_as_state() {
    let (_temp_dir, madeleine) = make_test_madeleine(|| 41 + 1 as u64);

    assert_eq!(42, madeleine.into_inner());
}

#[test]
fn test_execute_command_once() {
    let (_temp_dir, mut madeleine) = make_test_madeleine(CounterState::new);

    let action = Action::Increment("panda".as_bytes().to_vec(), 613);

    madeleine
        .execute_command(action)
        .expect("unable to execute increment action in test");

    let state = madeleine.into_inner();

    let actual = state.get("panda".as_bytes());

    let val = 613_u64;

    let expected = Some(val);

    assert_eq!(expected, actual);
}

#[test]
fn test_execute_command_many() {
    let (_temp_dir, mut madeleine) = make_test_madeleine(CounterState::new);

    for _i in 0..613 {
        let action = Action::Increment("panda".as_bytes().to_vec(), 1);

        madeleine
            .execute_command(action)
            .expect("unable to execute increment action in test");
    }

    let state = madeleine.into_inner();

    let actual = state.get("panda".as_bytes());

    let val = 613_u64;

    let expected = Some(val);

    assert_eq!(expected, actual);
}

#[test]
fn test_tap() {
    let (_temp_dir, mut madeleine) = make_test_madeleine(CounterState::new);

    let internal_start = madeleine.tap().get("panda".as_bytes());

    assert_eq!(internal_start, None);

    for _i in 0..613 {
        let action = Action::Increment("panda".as_bytes().to_vec(), 1);

        madeleine
            .execute_command(action)
            .expect("unable to execute increment action in test");
    }

    let internal_mid = madeleine.tap().get("panda".as_bytes()).unwrap_or(0);

    assert_eq!(internal_mid, 613);

    for _i in 0..613 {
        let action = Action::Decrement("panda".as_bytes().to_vec(), 1);

        madeleine
            .execute_command(action)
            .expect("unable to execute decrement action in test");
    }

    let state = madeleine.into_inner();

    let actual = state.get("panda".as_bytes());

    let val = 0;

    let expected = Some(val);

    assert_eq!(expected, actual);
}

#[test]
fn test_len_with_empty() {
    let (_temp_dir, madeleine) = make_test_madeleine(CounterState::new);

    let actual = madeleine.len().expect("unable to count length in test");

    assert_eq!(actual, 0);
}

#[test]
fn test_len_with_some_commands() {
    let (_temp_dir, mut madeleine) = make_test_madeleine(CounterState::new);

    let length_at_start = madeleine.len().expect("unable to count length in test");

    assert_eq!(length_at_start, 0);

    for _i in 0..613 {
        let action = Action::Increment("panda".as_bytes().to_vec(), 1);

        madeleine
            .execute_command(action)
            .expect("unable to execute increment action in test");
    }

    let actual = madeleine.len().expect("unable to count length in test");

    assert_eq!(actual, 613);
}
