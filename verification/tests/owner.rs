//! Sessions and schema versions.

use smartzip::owner::{owner_lock_path, ExecutionOwner};
use smartzip::schema::{current_version, promoted_version, LATEST_VERSION};

#[test]
fn epochs_count_sessions() {
    let first = ExecutionOwner::acquire(None, "one".to_string());
    assert_eq!(first.epoch(), 1);
    let second = ExecutionOwner::acquire(Some(first.epoch()), "two".to_string());
    assert_eq!(second.epoch(), 2);
    assert_eq!(second.session_id(), "two");
    assert_eq!(ExecutionOwner::acquire(Some(i64::MAX), String::new()).epoch(), i64::MAX);
}

#[test]
fn lock_lies_beside_the_database() {
    assert_eq!(owner_lock_path("/var/state.db"), "/var/state.db.owner.lock");
}

#[test]
fn versions_of_older_databases() {
    assert_eq!(LATEST_VERSION, 3);
    assert_eq!(promoted_version(true, 0, 2), Some(2));
    assert_eq!(promoted_version(true, 3, 2), None);
    assert_eq!(promoted_version(false, 0, 0), None);
    assert_eq!(promoted_version(true, 0, 0), None);
    assert_eq!(current_version(0, 2), 2);
    assert_eq!(current_version(3, 2), 3);
    assert_eq!(current_version(0, 0), 0);
}
