use vstd::prelude::*;
use vstd::std_specs::cmp::PartialEqSpecImpl;
use crate::clock::{format_timestamp, is_timestamp, timestamp_text};

verus! {

/// Why a credential check failed.
#[derive(Debug, Clone, Copy, PartialEq, Eq, Structural)]
pub enum FailureReason {
    AccountLocked,
    WrongUsername,
    WrongPassword,
}

/// What one log entry says.
pub struct LogRecord {
    pub timestamp: int,
    pub source_ip: Seq<char>,
    pub username: Seq<char>,
    pub success: bool,
    pub failure_reason: Option<FailureReason>,
}

impl LogRecord {
    /// The record of a check that succeeded where `failure_reason` is absent
    /// and failed for that reason otherwise.
    pub open spec fn of(
        timestamp: int,
        source_ip: Seq<char>,
        username: Seq<char>,
        failure_reason: Option<FailureReason>,
    ) -> LogRecord {
        LogRecord {
            timestamp,
            source_ip,
            username,
            success: failure_reason is None,
            failure_reason,
        }
    }

    /// The time is a timestamp, and a reason is given exactly for a failure.
    pub open spec fn valid(self) -> bool {
        is_timestamp(self.timestamp) && (self.success <==> self.failure_reason is None)
    }
}

/// One credential check: when, from where, under which name, and how it
/// ended.
#[derive(Debug)]
pub struct Log {
    timestamp: i64,
    source_ip: String,
    username: String,
    success: bool,
    failure_reason: Option<FailureReason>,
}

impl View for Log {
    type V = LogRecord;

    closed spec fn view(&self) -> LogRecord {
        LogRecord {
            timestamp: self.timestamp as int,
            source_ip: self.source_ip@,
            username: self.username@,
            success: self.success,
            failure_reason: self.failure_reason,
        }
    }
}

impl Log {
    #[verifier::type_invariant]
    closed spec fn wf(self) -> bool {
        self@.valid()
    }

    /// The entry of a check at `timestamp`.
    pub fn new(
        timestamp: i64,
        source_ip: String,
        username: String,
        failure_reason: Option<FailureReason>,
    ) -> (log: Log)
        requires
            is_timestamp(timestamp as int),
        ensures
            log@ == LogRecord::of(timestamp as int, source_ip@, username@, failure_reason),
    {
        let success = failure_reason.is_none();
        Log { timestamp, source_ip, username, success, failure_reason }
    }

    /// Seconds since 1970-01-01 00:00:00.
    pub fn timestamp(&self) -> (seconds: i64)
        ensures
            seconds == self@.timestamp,
            self@.valid(),
    {
        proof {
            use_type_invariant(self);
        }
        self.timestamp
    }

    /// The time of the check, written as `YYYY-MM-DD HH:MM:SS`.
    pub fn datetime(&self) -> (text: String)
        ensures
            text@ == timestamp_text(self@.timestamp),
    {
        proof {
            use_type_invariant(self);
        }
        format_timestamp(self.timestamp)
    }

    pub fn source_ip(&self) -> (ip: &String)
        ensures
            ip@ == self@.source_ip,
    {
        &self.source_ip
    }

    pub fn username(&self) -> (name: &String)
        ensures
            name@ == self@.username,
    {
        &self.username
    }

    pub fn success(&self) -> (success: bool)
        ensures
            success == self@.success,
            success <==> self@.failure_reason is None,
    {
        proof {
            use_type_invariant(self);
        }
        self.success
    }

    pub fn failure_reason(&self) -> (reason: Option<FailureReason>)
        ensures
            reason == self@.failure_reason,
    {
        self.failure_reason
    }

    /// A second entry that says the same.
    pub fn duplicate(&self) -> (copy: Log)
        ensures
            copy@ == self@,
    {
        proof {
            use_type_invariant(self);
        }
        Log {
            timestamp: self.timestamp,
            source_ip: self.source_ip.clone(),
            username: self.username.clone(),
            success: self.success,
            failure_reason: self.failure_reason,
        }
    }
}

impl PartialEq for Log {
    fn eq(&self, other: &Log) -> (equal: bool) {
        let same_reason = match (self.failure_reason, other.failure_reason) {
            (None, None) => true,
            (Some(a), Some(b)) => a == b,
            _ => false,
        };
        self.timestamp == other.timestamp && self.source_ip == other.source_ip && self.username
            == other.username && self.success == other.success && same_reason
    }
}

impl PartialEqSpecImpl for Log {
    open spec fn obeys_eq_spec() -> bool {
        true
    }

    open spec fn eq_spec(&self, other: &Log) -> bool {
        self@ == other@
    }
}

/// What one attack entry says.
pub struct AttackRecord {
    pub start: int,
    pub end: int,
    pub source_ip: Seq<char>,
}

impl AttackRecord {
    /// Both times are timestamps, and the attack does not end before it
    /// starts.
    pub open spec fn valid(self) -> bool {
        is_timestamp(self.start) && is_timestamp(self.end) && self.start <= self.end
    }
}

/// One attack: when it started, when its last episode ended, and the
/// attacker's address.
#[derive(Debug)]
pub struct Attack {
    start: i64,
    end: i64,
    source_ip: String,
}

impl View for Attack {
    type V = AttackRecord;

    closed spec fn view(&self) -> AttackRecord {
        AttackRecord { start: self.start as int, end: self.end as int, source_ip: self.source_ip@ }
    }
}

impl Attack {
    #[verifier::type_invariant]
    closed spec fn wf(self) -> bool {
        self@.valid()
    }

    /// The entry of an attack that ran from `start` to `end`.
    pub fn new(start: i64, end: i64, source_ip: String) -> (attack: Attack)
        requires
            is_timestamp(start as int),
            is_timestamp(end as int),
            start <= end,
        ensures
            attack@ == (AttackRecord { start: start as int, end: end as int, source_ip: source_ip@ }),
    {
        Attack { start, end, source_ip }
    }

    /// Seconds since 1970-01-01 00:00:00 at which the attack began.
    pub fn start_timestamp(&self) -> (seconds: i64)
        ensures
            seconds == self@.start,
            self@.valid(),
    {
        proof {
            use_type_invariant(self);
        }
        self.start
    }

    /// Seconds since 1970-01-01 00:00:00 at which the attack ended: never
    /// before it began.
    pub fn end_timestamp(&self) -> (seconds: i64)
        ensures
            seconds == self@.end,
            seconds >= self@.start,
            self@.valid(),
    {
        proof {
            use_type_invariant(self);
        }
        self.end
    }

    /// The start of the attack, written as `YYYY-MM-DD HH:MM:SS`.
    pub fn start(&self) -> (text: String)
        ensures
            text@ == timestamp_text(self@.start),
    {
        proof {
            use_type_invariant(self);
        }
        format_timestamp(self.start)
    }

    /// The end of the attack, written as `YYYY-MM-DD HH:MM:SS`.
    pub fn end(&self) -> (text: String)
        ensures
            text@ == timestamp_text(self@.end),
    {
        proof {
            use_type_invariant(self);
        }
        format_timestamp(self.end)
    }

    pub fn source_ip(&self) -> (ip: &String)
        ensures
            ip@ == self@.source_ip,
    {
        &self.source_ip
    }
}

impl PartialEq for Attack {
    fn eq(&self, other: &Attack) -> (equal: bool) {
        self.start == other.start && self.end == other.end && self.source_ip == other.source_ip
    }
}

impl PartialEqSpecImpl for Attack {
    open spec fn obeys_eq_spec() -> bool {
        true
    }

    open spec fn eq_spec(&self, other: &Attack) -> bool {
        self@ == other@
    }
}

/// What a sequence of log entries says, entry by entry.
pub open spec fn log_records(logs: Seq<Log>) -> Seq<LogRecord> {
    logs.map_values(|log: Log| log@)
}

/// What a sequence of attack entries says, entry by entry.
pub open spec fn attack_records(attacks: Seq<Attack>) -> Seq<AttackRecord> {
    attacks.map_values(|attack: Attack| attack@)
}

} // verus!
