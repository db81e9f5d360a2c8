//! Atomic timeline creation: admission, completion and abandonment.

use attachment_service::ids::{Lsn, TimelineId};
use attachment_service::timelines::{
    TenantTimelines, TimelineCreationError, TimelineFinishError,
};

#[test]
fn creation_is_admitted_once() {
    let mut t = TenantTimelines::new();
    assert!(t.begin_creation(TimelineId(1)).is_ok());
    assert_eq!(t.begin_creation(TimelineId(1)), Err(TimelineCreationError::AlreadyCreating));
    assert!(t.begin_creation(TimelineId(2)).is_ok());
}

#[test]
fn finish_inserts_and_blocks_recreation() {
    let mut t = TenantTimelines::new();
    t.begin_creation(TimelineId(1)).unwrap();
    assert!(t.finish_creation(TimelineId(1), true, Lsn(0x10)).is_ok());
    t.end_creation(TimelineId(1));
    assert_eq!(t.begin_creation(TimelineId(1)), Err(TimelineCreationError::AlreadyExists));
}

#[test]
fn finish_requires_initialized_data() {
    let mut t = TenantTimelines::new();
    t.begin_creation(TimelineId(1)).unwrap();
    assert_eq!(
        t.finish_creation(TimelineId(1), false, Lsn(0x10)),
        Err(TimelineFinishError::NotInitialized)
    );
    assert_eq!(
        t.finish_creation(TimelineId(1), true, Lsn(0)),
        Err(TimelineFinishError::InvalidDiskConsistentLsn)
    );
    assert!(t.finish_creation(TimelineId(1), true, Lsn(0x10)).is_ok());
    assert_eq!(
        t.finish_creation(TimelineId(1), true, Lsn(0x10)),
        Err(TimelineFinishError::AlreadyInserted)
    );
}

#[test]
fn abandoned_creation_releases_the_id() {
    let mut t = TenantTimelines::new();
    t.begin_creation(TimelineId(1)).unwrap();
    // dropped without initializing: the driver cleans the files and the
    // id becomes creatable again
    t.end_creation(TimelineId(1));
    assert!(t.begin_creation(TimelineId(1)).is_ok());
}

#[test]
fn lsn_validity() {
    assert!(!Lsn(0).is_valid());
    assert!(Lsn(1).is_valid());
}
