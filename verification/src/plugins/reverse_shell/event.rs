//! Detections and the append-only log that keeps them.

use super::connection::{ConnectionInfo, ConnectionRecord};
use vstd::prelude::*;

verus! {

/// What kind of thing was detected.
#[derive(Clone, Copy, Debug, PartialEq, Eq, Structural)]
pub enum EventType {
    SuspiciousConnection,
    ReverseShellDetected,
    ProcessInjection,
    NetworkAnomaly,
    KernelHookTriggered,
}

/// How serious a detection is.
#[derive(Clone, Copy, Debug, PartialEq, Eq, Structural)]
pub enum Severity {
    Low,
    Medium,
    High,
    Critical,
}

impl Severity {
    /// The name under which a severity is shown.
    pub open spec fn label(self) -> Seq<char> {
        match self {
            Severity::Low => "Low"@,
            Severity::Medium => "Medium"@,
            Severity::High => "High"@,
            Severity::Critical => "Critical"@,
        }
    }

    /// The name under which this severity is shown.
    pub fn name(&self) -> (text: &'static str)
        ensures
            text@ == self.label(),
    {
        match self {
            Severity::Low => "Low",
            Severity::Medium => "Medium",
            Severity::High => "High",
            Severity::Critical => "Critical",
        }
    }
}

/// One detection: when it was made, on the caller's clock in seconds,
/// what it is, and the connection it is about, if any.
#[derive(Debug)]
pub struct ReverseShellEvent {
    pub timestamp: u64,
    pub event_type: EventType,
    pub severity: Severity,
    pub details: String,
    pub connection_info: Option<ConnectionInfo>,
}

/// The value of a `ReverseShellEvent`.
pub struct EventRecord {
    pub timestamp: u64,
    pub event_type: EventType,
    pub severity: Severity,
    pub details: Seq<char>,
    pub connection_info: Option<ConnectionRecord>,
}

impl View for ReverseShellEvent {
    type V = EventRecord;

    open spec fn view(&self) -> EventRecord {
        EventRecord {
            timestamp: self.timestamp,
            event_type: self.event_type,
            severity: self.severity,
            details: self.details@,
            connection_info: match self.connection_info {
                Some(c) => Some(c@),
                None => None,
            },
        }
    }
}

impl Clone for ReverseShellEvent {
    fn clone(&self) -> (copy: Self)
        ensures
            copy@ == self@,
    {
        ReverseShellEvent {
            timestamp: self.timestamp,
            event_type: self.event_type,
            severity: self.severity,
            details: self.details.clone(),
            connection_info: match &self.connection_info {
                Some(c) => Some(c.clone()),
                None => None,
            },
        }
    }
}

/// The values of a list of events.
pub open spec fn event_records(list: Seq<ReverseShellEvent>) -> Seq<EventRecord> {
    list.map_values(|e: ReverseShellEvent| e@)
}

/// The last `n` events of `s`, oldest first; all of them where `s` holds
/// no more than `n`.
pub open spec fn latest(s: Seq<EventRecord>, n: nat) -> Seq<EventRecord> {
    if n >= s.len() {
        s
    } else {
        s.skip(s.len() - n)
    }
}

/// The detections that were made, in the order in which they were
/// appended. Nothing is ever removed or changed.
pub struct EventLog {
    events: Vec<ReverseShellEvent>,
}

impl View for EventLog {
    type V = Seq<EventRecord>;

    closed spec fn view(&self) -> Seq<EventRecord> {
        event_records(self.events@)
    }
}

impl EventLog {
    /// An empty log.
    pub fn new() -> (log: Self)
        ensures
            log@ == Seq::<EventRecord>::empty(),
    {
        let log = EventLog { events: Vec::new() };
        proof {
            assert(log@ =~= Seq::<EventRecord>::empty());
        }
        log
    }

    /// Adds `event` at the end of the log.
    pub fn append(&mut self, event: ReverseShellEvent)
        ensures
            final(self)@ == old(self)@.push(event@),
    {
        self.events.push(event);
        proof {
            assert(self@ =~= old(self)@.push(event@));
        }
    }

    /// The number of events.
    pub fn count(&self) -> (n: usize)
        ensures
            n == self@.len(),
    {
        self.events.len()
    }

    /// A copy of the last `n` events, oldest first.
    pub fn recent(&self, n: usize) -> (list: Vec<ReverseShellEvent>)
        ensures
            event_records(list@) == latest(self@, n as nat),
    {
        let len = self.events.len();
        let start = if n >= len {
            0
        } else {
            len - n
        };
        let mut list: Vec<ReverseShellEvent> = Vec::new();
        let mut i: usize = start;
        while i < len
            invariant
                len == self.events@.len(),
                start <= i <= len,
                event_records(list@) == self@.subrange(start as int, i as int),
            decreases len - i,
        {
            let ghost before = event_records(list@);
            list.push(self.events[i].clone());
            proof {
                assert(event_records(list@) =~= before.push(self.events@[i as int]@));
                assert(before.push(self.events@[i as int]@) =~= self@.subrange(
                    start as int,
                    i + 1,
                ));
            }
            i += 1;
        }
        proof {
            assert(self@.subrange(start as int, len as int) =~= latest(self@, n as nat));
        }
        list
    }

    /// A copy of every event, oldest first.
    pub fn snapshot(&self) -> (list: Vec<ReverseShellEvent>)
        ensures
            event_records(list@) == self@,
    {
        let list = self.recent(self.events.len());
        list
    }
}

} // verus!
