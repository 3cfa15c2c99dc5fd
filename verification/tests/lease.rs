use nysia_core::lease::{DaemonIdentity, LeaseError, LeaseFile, PidRecord, PidRecordFile};

fn identity(pid: u32, nonce: &str) -> DaemonIdentity {
    DaemonIdentity {
        pid,
        started_at_ms: 1_757_721_600_000,
        launch_nonce: nonce.to_owned(),
        app_version: "0.1.0".to_owned(),
    }
}

fn at(name: &str) -> PidRecordFile {
    PidRecordFile::at(format!("/run/nysia/{name}"))
}

fn read(lease: &PidRecordFile, record: PidRecord) -> PidRecord {
    lease.read(LeaseFile::Holds(record)).expect("reads").expect("is there")
}

#[test]
fn an_absent_lease_reads_as_nothing_rather_than_as_an_error() {
    let lease = at("nysiad-v1.pid.json");
    assert!(lease.read(LeaseFile::Absent).expect("absent is not a failure").is_none());
}

#[test]
fn a_written_lease_describes_the_daemon_that_wrote_it_and_nothing_else() {
    let lease = at("nysiad-v1.pid.json");
    let mine = identity(4242, "nonce-one");
    let record = read(&lease, mine.pid_record());
    assert!(record.describes(&mine));

    let impostor = identity(4242, "nonce-two");
    assert!(!record.describes(&impostor));

    let renumbered = identity(4243, "nonce-one");
    assert!(!record.describes(&renumbered));

    let restarted = DaemonIdentity { started_at_ms: 1, ..identity(4242, "nonce-one") };
    assert!(!record.describes(&restarted));
}

#[test]
fn a_corrupt_lease_is_an_error_and_not_an_absent_one() {
    let lease = at("nysiad-v1.pid.json");
    let err = lease
        .read(LeaseFile::Garbled("EOF while parsing an object at line 1 column 10".to_owned()))
        .expect_err("half a record is a failure");
    assert!(matches!(err, LeaseError::Corrupt { .. }));
    assert_eq!(
        err.message(),
        "the daemon lease at /run/nysia/nysiad-v1.pid.json is not a readable pid record: EOF while parsing an object at line 1 column 10"
    );
}

#[test]
fn a_rewritten_lease_replaces_the_previous_one_whole() {
    let lease = at("nysiad-v1.pid.json");
    let first = identity(1, "first");
    let second = identity(2, "second");
    let record = read(&lease, second.pid_record());
    assert!(record.describes(&second));
    assert!(!record.describes(&first));
}

#[test]
fn a_lease_that_cannot_be_read_or_written_says_which() {
    let lease = at("lease");
    assert_eq!(lease.path(), "/run/nysia/lease");
    let err = lease.read(LeaseFile::Unreadable("denied".to_owned())).expect_err("a failure");
    assert_eq!(err.message(), "could not read the daemon lease at /run/nysia/lease: denied");
    let err = lease.write_failed("rename", "busy".to_owned());
    assert_eq!(err.message(), "could not rename the daemon lease at /run/nysia/lease: busy");
}
