//! Audit log: the kinds of recorded events and their stored codes, the
//! queries that record and list entries, and the listing limit.

use vstd::prelude::*;
use vstd::string::*;

verus! {

/// The kind of an audited event.
#[derive(Clone, Copy, Debug, PartialEq, Eq, Structural)]
pub enum AuditEventType {
    PasswordChange,
    BackupCreated,
    BackupRestored,
    LockForced,
    IntegrityCheckFailed,
    StudentCreated,
    StudentUpdated,
    StudentWithdrawn,
    StudentReinstated,
    AttendanceToggled,
    SecurityEvent,
    MakeupCreated,
    MakeupCancelled,
    MakeupExpired,
    BillConfirmed,
    AttendanceRescheduled,
    ScheduleChangedWithRegen,
}

/// The code stored for each kind: its name in lower case with hyphens.
pub open spec fn event_code(t: AuditEventType) -> Seq<char> {
    match t {
        AuditEventType::PasswordChange => "password-change"@,
        AuditEventType::BackupCreated => "backup-created"@,
        AuditEventType::BackupRestored => "backup-restored"@,
        AuditEventType::LockForced => "lock-forced"@,
        AuditEventType::IntegrityCheckFailed => "integrity-check-failed"@,
        AuditEventType::StudentCreated => "student-created"@,
        AuditEventType::StudentUpdated => "student-updated"@,
        AuditEventType::StudentWithdrawn => "student-withdrawn"@,
        AuditEventType::StudentReinstated => "student-reinstated"@,
        AuditEventType::AttendanceToggled => "attendance-toggled"@,
        AuditEventType::SecurityEvent => "security-event"@,
        AuditEventType::MakeupCreated => "makeup-created"@,
        AuditEventType::MakeupCancelled => "makeup-cancelled"@,
        AuditEventType::MakeupExpired => "makeup-expired"@,
        AuditEventType::BillConfirmed => "bill-confirmed"@,
        AuditEventType::AttendanceRescheduled => "attendance-rescheduled"@,
        AuditEventType::ScheduleChangedWithRegen => "schedule-changed-with-regen"@,
    }
}

impl AuditEventType {
    /// The code stored for the event kind (see `event_code`).
    pub fn as_code(self) -> (r: &'static str)
        ensures
            r@ == event_code(self),
    {
        match self {
            AuditEventType::PasswordChange => "password-change",
            AuditEventType::BackupCreated => "backup-created",
            AuditEventType::BackupRestored => "backup-restored",
            AuditEventType::LockForced => "lock-forced",
            AuditEventType::IntegrityCheckFailed => "integrity-check-failed",
            AuditEventType::StudentCreated => "student-created",
            AuditEventType::StudentUpdated => "student-updated",
            AuditEventType::StudentWithdrawn => "student-withdrawn",
            AuditEventType::StudentReinstated => "student-reinstated",
            AuditEventType::AttendanceToggled => "attendance-toggled",
            AuditEventType::SecurityEvent => "security-event",
            AuditEventType::MakeupCreated => "makeup-created",
            AuditEventType::MakeupCancelled => "makeup-cancelled",
            AuditEventType::MakeupExpired => "makeup-expired",
            AuditEventType::BillConfirmed => "bill-confirmed",
            AuditEventType::AttendanceRescheduled => "attendance-rescheduled",
            AuditEventType::ScheduleChangedWithRegen => "schedule-changed-with-regen",
        }
    }
}

/// The length and the first and ninth characters of each kind's code.
spec fn code_signature(t: AuditEventType) -> (int, char, char) {
    match t {
        AuditEventType::PasswordChange => (15, 'p', '-'),
        AuditEventType::BackupCreated => (14, 'b', 'r'),
        AuditEventType::BackupRestored => (15, 'b', 'e'),
        AuditEventType::LockForced => (11, 'l', 'c'),
        AuditEventType::IntegrityCheckFailed => (22, 'i', 'y'),
        AuditEventType::StudentCreated => (15, 's', 'c'),
        AuditEventType::StudentUpdated => (15, 's', 'u'),
        AuditEventType::StudentWithdrawn => (17, 's', 'w'),
        AuditEventType::StudentReinstated => (18, 's', 'r'),
        AuditEventType::AttendanceToggled => (18, 'a', 'c'),
        AuditEventType::SecurityEvent => (14, 's', '-'),
        AuditEventType::MakeupCreated => (14, 'm', 'r'),
        AuditEventType::MakeupCancelled => (16, 'm', 'a'),
        AuditEventType::MakeupExpired => (14, 'm', 'x'),
        AuditEventType::BillConfirmed => (14, 'b', 'f'),
        AuditEventType::AttendanceRescheduled => (22, 'a', 'c'),
        AuditEventType::ScheduleChangedWithRegen => (27, 's', '-'),
    }
}

/// The kind whose code has the signature `s`.
spec fn kind_of_signature(s: (int, char, char)) -> AuditEventType {
    if s == (15int, 'p', '-') {
        AuditEventType::PasswordChange
    } else if s == (14int, 'b', 'r') {
        AuditEventType::BackupCreated
    } else if s == (15int, 'b', 'e') {
        AuditEventType::BackupRestored
    } else if s == (11int, 'l', 'c') {
        AuditEventType::LockForced
    } else if s == (22int, 'i', 'y') {
        AuditEventType::IntegrityCheckFailed
    } else if s == (15int, 's', 'c') {
        AuditEventType::StudentCreated
    } else if s == (15int, 's', 'u') {
        AuditEventType::StudentUpdated
    } else if s == (17int, 's', 'w') {
        AuditEventType::StudentWithdrawn
    } else if s == (18int, 's', 'r') {
        AuditEventType::StudentReinstated
    } else if s == (18int, 'a', 'c') {
        AuditEventType::AttendanceToggled
    } else if s == (14int, 's', '-') {
        AuditEventType::SecurityEvent
    } else if s == (14int, 'm', 'r') {
        AuditEventType::MakeupCreated
    } else if s == (16int, 'm', 'a') {
        AuditEventType::MakeupCancelled
    } else if s == (14int, 'm', 'x') {
        AuditEventType::MakeupExpired
    } else if s == (14int, 'b', 'f') {
        AuditEventType::BillConfirmed
    } else if s == (22int, 'a', 'c') {
        AuditEventType::AttendanceRescheduled
    } else {
        AuditEventType::ScheduleChangedWithRegen
    }
}

proof fn lemma_code_signature(t: AuditEventType)
    ensures
        code_signature(t) == (event_code(t).len() as int, event_code(t)[0], event_code(t)[8]),
        kind_of_signature(code_signature(t)) == t,
{
    match t {
        AuditEventType::PasswordChange => {
            reveal_strlit("password-change");
        },
        AuditEventType::BackupCreated => {
            reveal_strlit("backup-created");
        },
        AuditEventType::BackupRestored => {
            reveal_strlit("backup-restored");
        },
        AuditEventType::LockForced => {
            reveal_strlit("lock-forced");
        },
        AuditEventType::IntegrityCheckFailed => {
            reveal_strlit("integrity-check-failed");
        },
        AuditEventType::StudentCreated => {
            reveal_strlit("student-created");
        },
        AuditEventType::StudentUpdated => {
            reveal_strlit("student-updated");
        },
        AuditEventType::StudentWithdrawn => {
            reveal_strlit("student-withdrawn");
        },
        AuditEventType::StudentReinstated => {
            reveal_strlit("student-reinstated");
        },
        AuditEventType::AttendanceToggled => {
            reveal_strlit("attendance-toggled");
        },
        AuditEventType::SecurityEvent => {
            reveal_strlit("security-event");
        },
        AuditEventType::MakeupCreated => {
            reveal_strlit("makeup-created");
        },
        AuditEventType::MakeupCancelled => {
            reveal_strlit("makeup-cancelled");
        },
        AuditEventType::MakeupExpired => {
            reveal_strlit("makeup-expired");
        },
        AuditEventType::BillConfirmed => {
            reveal_strlit("bill-confirmed");
        },
        AuditEventType::AttendanceRescheduled => {
            reveal_strlit("attendance-rescheduled");
        },
        AuditEventType::ScheduleChangedWithRegen => {
            reveal_strlit("schedule-changed-with-regen");
        },
    }
}

/// Each kind of event has a code of its own: two kinds with the same code are
/// the same kind.
pub proof fn lemma_event_codes_distinct(a: AuditEventType, b: AuditEventType)
    requires
        event_code(a) == event_code(b),
    ensures
        a == b,
{
    lemma_code_signature(a);
    lemma_code_signature(b);
}

/// One entry of the audit log.
#[derive(Clone, Debug, PartialEq, Eq)]
pub struct AuditLogEntry {
    pub id: i64,
    pub created_at: String,
    pub event_type: String,
    pub event_subject: Option<String>,
    pub details: Option<String>,
}

/// How many entries a listing returns: 100 unless asked, never over 1000.
pub open spec fn listing_limit(limit: Option<u32>) -> u32 {
    let l = match limit {
        Some(x) => x,
        None => 100,
    };
    if l <= 1000 {
        l
    } else {
        1000
    }
}

/// The number of entries a listing returns (see `listing_limit`).
pub fn audit_log_limit(limit: Option<u32>) -> (r: u32)
    ensures
        r == listing_limit(limit),
{
    let l = match limit {
        Some(x) => x,
        None => 100,
    };
    if l <= 1000 {
        l
    } else {
        1000
    }
}

/// The query recording one event.
pub fn record_sql() -> (r: &'static str)
    ensures
        r@ == "INSERT INTO audit_logs (event_type, event_subject, details) VALUES (?, ?, ?)"@,
{
    "INSERT INTO audit_logs (event_type, event_subject, details) VALUES (?, ?, ?)"
}

/// The listing query, newest first, from a start time when one is given.
pub fn list_logs_sql(has_since: bool) -> (r: &'static str)
    ensures
        has_since ==> r@
            == "SELECT id, created_at, event_type, event_subject, details FROM audit_logs WHERE created_at >= ? ORDER BY created_at DESC LIMIT ?"@,
        !has_since ==> r@
            == "SELECT id, created_at, event_type, event_subject, details FROM audit_logs ORDER BY created_at DESC LIMIT ?"@,
{
    if has_since {
        "SELECT id, created_at, event_type, event_subject, details FROM audit_logs WHERE created_at >= ? ORDER BY created_at DESC LIMIT ?"
    } else {
        "SELECT id, created_at, event_type, event_subject, details FROM audit_logs ORDER BY created_at DESC LIMIT ?"
    }
}

/// The query deleting entries older than a cut-off time.
pub fn cleanup_sql() -> (r: &'static str)
    ensures
        r@ == "DELETE FROM audit_logs WHERE created_at < ?"@,
{
    "DELETE FROM audit_logs WHERE created_at < ?"
}

} // verus!
