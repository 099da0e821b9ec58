use snapshot_decay::command::ExitReport;
use snapshot_decay::snapshot::{DestroyError, SnapState, Snapshot};

#[test]
fn timestamp_is_read_as_utc() {
    let s = Snapshot::new("20200101-0000", "tank/data@20200101-0000".to_string());
    let s = match s {
        Ok(s) => s,
        Err(_) => panic!("timestamp must parse"),
    };
    assert_eq!(s.created_at(), 1_577_836_800);
    assert_eq!(s.identifier(), "tank/data@20200101-0000");
    assert_eq!(s.state(), SnapState::Exists);
}

#[test]
fn epoch_is_zero() {
    let s = Snapshot::new("19700101-0000", "x@19700101-0000".to_string());
    assert!(matches!(s, Ok(ref s) if s.created_at() == 0));
}

#[test]
fn minutes_and_hours_count() {
    let s = Snapshot::new("19700102-0130", "x@19700102-0130".to_string());
    assert!(matches!(s, Ok(ref s) if s.created_at() == 86_400 + 3_600 + 1_800));
}

#[test]
fn month_out_of_range_is_an_error() {
    let r = Snapshot::new("20201301-0000", "tank/data@20201301-0000".to_string());
    match r {
        Ok(_) => panic!("month 13 must not parse"),
        Err(e) => {
            assert_eq!(e.identifier, "tank/data@20201301-0000");
            assert!(!e.cause.is_empty());
        }
    }
}

#[test]
fn hour_out_of_range_is_an_error() {
    assert!(Snapshot::new("20200101-2400", "x".to_string()).is_err());
    assert!(Snapshot::new("20200101-0060", "x".to_string()).is_err());
    assert!(Snapshot::new("20200100-0000", "x".to_string()).is_err());
}

#[test]
fn text_that_is_no_timestamp_is_an_error() {
    assert!(Snapshot::new("notatimestamp", "storage/x@notatimestamp".to_string()).is_err());
    assert!(Snapshot::new("", "x".to_string()).is_err());
    assert!(Snapshot::new("2020", "x".to_string()).is_err());
}

#[test]
fn synthetic_record_exists() {
    let s = Snapshot::at(-5, "tank@old".to_string());
    assert_eq!(s.created_at(), -5);
    assert_eq!(s.identifier(), "tank@old");
    assert_eq!(s.state(), SnapState::Exists);
}

#[test]
fn successful_destroy_marks_deleted() {
    let mut s = Snapshot::at(10, "tank@a".to_string());
    assert!(s.zfs_destroy(ExitReport::Exited(0)).is_ok());
    assert_eq!(s.state(), SnapState::Deleted);
    assert_eq!(s.identifier(), "tank@a");
    assert_eq!(s.created_at(), 10);
}

#[test]
fn destroying_twice_is_a_fault() {
    let mut s = Snapshot::at(10, "tank@a".to_string());
    assert!(s.zfs_destroy(ExitReport::Exited(0)).is_ok());
    let again = s.zfs_destroy(ExitReport::Exited(0));
    assert!(matches!(again, Err(DestroyError::AlreadyDeleted { ref identifier }) if identifier == "tank@a"));
    assert_eq!(s.state(), SnapState::Deleted);
    let again = s.zfs_destroy(ExitReport::Exited(1));
    assert!(matches!(again, Err(DestroyError::AlreadyDeleted { .. })));
}

#[test]
fn failed_destroy_leaves_the_record() {
    for report in [ExitReport::Exited(1), ExitReport::Exited(-1), ExitReport::NotStarted, ExitReport::Abnormal] {
        let mut s = Snapshot::at(10, "tank@a".to_string());
        let r = s.zfs_destroy(report);
        assert!(matches!(r, Err(DestroyError::Failed { ref identifier, report: got })
            if identifier == "tank@a" && got == report));
        assert_eq!(s.state(), SnapState::Exists);
    }
}
