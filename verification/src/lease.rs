//! The adoption lease: the record that says which daemon this is.
//!
//! A record is a hint and never proof of life. It describes a daemon only when its pid, its
//! start and its launch nonce all agree with what that daemon says of itself.
use vstd::prelude::*;
use crate::text::same;

verus! {

/// Who a daemon is, as the handshake reports it.
#[derive(Debug)]
pub struct DaemonIdentity {
    /// Its process.
    pub pid: u32,
    /// When it started, in Unix milliseconds.
    pub started_at_ms: u64,
    /// What it drew when it was launched.
    pub launch_nonce: String,
    /// The version it came from.
    pub app_version: String,
}

/// What a lease holds.
#[derive(Debug)]
pub struct PidRecord {
    /// The daemon's process.
    pub pid: u32,
    /// When it started, in Unix milliseconds.
    pub started_at_ms: u64,
    /// What it drew when it was launched.
    pub launch_nonce: String,
}

impl DaemonIdentity {
    /// The record of this daemon.
    pub fn pid_record(&self) -> (out: PidRecord)
        ensures
            out.pid == self.pid,
            out.started_at_ms == self.started_at_ms,
            out.launch_nonce@ == self.launch_nonce@,
            out.is_of(self),
    {
        PidRecord {
            pid: self.pid,
            started_at_ms: self.started_at_ms,
            launch_nonce: self.launch_nonce.clone(),
        }
    }
}

impl PidRecord {
    /// Whether this is the record of that daemon: the pid, the start and the nonce all agree.
    pub open spec fn is_of(&self, identity: &DaemonIdentity) -> bool {
        self.pid == identity.pid && self.started_at_ms == identity.started_at_ms
            && self.launch_nonce@ == identity.launch_nonce@
    }

    /// Whether this is the record of that daemon.
    pub fn describes(&self, identity: &DaemonIdentity) -> (out: bool)
        ensures
            out == self.is_of(identity),
    {
        self.pid == identity.pid && self.started_at_ms == identity.started_at_ms && same(
            self.launch_nonce.as_str(),
            identity.launch_nonce.as_str(),
        )
    }
}

/// Why the lease could not be read or written.
#[derive(Debug)]
pub enum LeaseError {
    /// The file could not be read or written.
    Io {
        /// What was being attempted.
        action: &'static str,
        /// Which file.
        path: String,
        /// What the operating system said.
        source: String,
    },
    /// The file existed but did not hold a readable record.
    Corrupt {
        /// Which file.
        path: String,
        /// What the parser made of it.
        source: String,
    },
}

/// What a failed lease says.
pub open spec fn lease_said(err: LeaseError) -> Seq<char> {
    match err {
        LeaseError::Io { action, path, source } => "could not "@ + action@
            + " the daemon lease at "@ + path@ + ": "@ + source@,
        LeaseError::Corrupt { path, source } => "the daemon lease at "@ + path@
            + " is not a readable pid record: "@ + source@,
    }
}

impl LeaseError {
    /// What happened.
    pub fn message(&self) -> (out: String)
        ensures
            out@ == lease_said(*self),
    {
        match self {
            LeaseError::Io { action, path, source } => {
                "could not ".to_owned().concat(action).concat(" the daemon lease at ").concat(
                    path.as_str(),
                ).concat(": ").concat(source.as_str())
            },
            LeaseError::Corrupt { path, source } => {
                "the daemon lease at ".to_owned().concat(path.as_str()).concat(
                    " is not a readable pid record: ",
                ).concat(source.as_str())
            },
        }
    }
}

/// What reading the lease file answered.
#[derive(Debug)]
pub enum LeaseFile {
    /// There is no file.
    Absent,
    /// There is one and it could not be read.
    Unreadable(String),
    /// It was read and does not hold a record.
    Garbled(String),
    /// It holds this record.
    Holds(PidRecord),
}

/// The lease file beside the endpoint.
#[derive(Debug)]
pub struct PidRecordFile {
    path: String,
}

impl PidRecordFile {
    /// Where the lease lives.
    pub closed spec fn location(&self) -> Seq<char> {
        self.path@
    }

    /// The lease stored at `path`.
    pub fn at(path: String) -> (out: PidRecordFile)
        ensures
            out.location() == path@,
    {
        PidRecordFile { path }
    }

    /// Where the lease lives.
    pub fn path(&self) -> (out: &str)
        ensures
            out@ == self.location(),
    {
        self.path.as_str()
    }

    /// What the lease says, given what reading its file answered.
    ///
    /// No file is `None`. A garbled one is an error: something wrote it and was interrupted,
    /// and quietly overwriting that is how a second daemon gets started on top of a live one.
    pub fn read(&self, file: LeaseFile) -> (out: Result<Option<PidRecord>, LeaseError>)
        ensures
            match file {
                LeaseFile::Absent => out == Ok::<Option<PidRecord>, LeaseError>(None),
                LeaseFile::Holds(record) => out == Ok::<Option<PidRecord>, LeaseError>(
                    Some(record),
                ),
                LeaseFile::Unreadable(said) => out matches Err(LeaseError::Io {
                    action,
                    path,
                    source,
                }) && action@ == "read"@ && path@ == self.location() && source == said,
                LeaseFile::Garbled(said) => out matches Err(LeaseError::Corrupt { path, source })
                    && path@ == self.location() && source == said,
            },
    {
        match file {
            LeaseFile::Absent => Ok(None),
            LeaseFile::Holds(record) => Ok(Some(record)),
            LeaseFile::Unreadable(said) => Err(
                LeaseError::Io { action: "read", path: self.path.clone(), source: said },
            ),
            LeaseFile::Garbled(said) => Err(
                LeaseError::Corrupt { path: self.path.clone(), source: said },
            ),
        }
    }

    /// What a failed step of writing the lease comes to.
    pub fn write_failed(&self, action: &'static str, source: String) -> (out: LeaseError)
        ensures
            out matches LeaseError::Io { action: a, path, source: s } && a@ == action@ && path@
                == self.location() && s == source,
    {
        LeaseError::Io { action, path: self.path.clone(), source }
    }
}

/// A lease describes the daemon that wrote it, and a daemon that differs from that one in its
/// pid, its start or its nonce is not described by it.
pub proof fn law_a_lease_describes_its_writer_alone(
    record: PidRecord,
    mine: DaemonIdentity,
    other: DaemonIdentity,
)
    requires
        record.is_of(&mine),
        other.pid != mine.pid || other.started_at_ms != mine.started_at_ms || other.launch_nonce@
            != mine.launch_nonce@,
    ensures
        !record.is_of(&other),
{
}

/// A record is a daemon's if it has the daemon's process, start and launch, and only then.
pub proof fn law_a_record_is_of_the_daemon_that_it_names(record: PidRecord, daemon: DaemonIdentity)
    ensures
        record.is_of(&daemon) <==> record.pid == daemon.pid && record.started_at_ms
            == daemon.started_at_ms && record.launch_nonce@ == daemon.launch_nonce@,
{
}

/// What is said of a lease that could not be had names the file and ends with the cause.
pub proof fn law_a_lease_failure_says_why(err: LeaseError)
    ensures
        err matches LeaseError::Io { action, path, source } ==> {
            let said = lease_said(err);
            let lead = "could not "@ + action@ + " the daemon lease at "@;
            &&& said.skip(said.len() - source@.len()) == source@
            &&& said.subrange(lead.len() as int, lead.len() as int + path@.len() as int) == path@
        },
        err matches LeaseError::Corrupt { path, source } ==> {
            let said = lease_said(err);
            let lead = "the daemon lease at "@;
            &&& said.skip(said.len() - source@.len()) == source@
            &&& said.subrange(lead.len() as int, lead.len() as int + path@.len() as int) == path@
        },
{
    let said = lease_said(err);
    match err {
        LeaseError::Io { action, path, source } => {
            let lead = "could not "@ + action@ + " the daemon lease at "@;
            assert(said.skip(said.len() - source@.len()) =~= source@);
            assert(said.subrange(lead.len() as int, lead.len() as int + path@.len() as int)
                =~= path@);
        },
        LeaseError::Corrupt { path, source } => {
            let lead = "the daemon lease at "@;
            assert(said.skip(said.len() - source@.len()) =~= source@);
            assert(said.subrange(lead.len() as int, lead.len() as int + path@.len() as int)
                =~= path@);
        },
    }
}

} // verus!
