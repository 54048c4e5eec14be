//! The detector: the one owner of the connection table and the event
//! log.

use super::connection::{
    distinct_keys, records, upserted, ConnectionInfo, ConnectionRecord, ConnectionTable,
    MergePolicy,
};
use super::event::{event_records, latest, EventLog, EventRecord, ReverseShellEvent};
use vstd::prelude::*;

verus! {

/// The state of the reverse-shell detector. Every change of the
/// connection table and of the event log goes through its methods, so a
/// caller that shares it between tasks needs one lock and no more.
pub struct ReverseShellDetector {
    detected_events: EventLog,
    connection_tracker: ConnectionTable,
}

impl ReverseShellDetector {
    /// The tracked connections, in the order in which they were first
    /// seen.
    pub closed spec fn connections(&self) -> Seq<ConnectionRecord> {
        self.connection_tracker@
    }

    /// The detections made so far, oldest first.
    pub closed spec fn events(&self) -> Seq<EventRecord> {
        self.detected_events@
    }

    /// What the connection table does when a key is observed again.
    pub closed spec fn policy(&self) -> MergePolicy {
        self.connection_tracker.policy()
    }

    /// A detector that tracks nothing yet and has detected nothing.
    pub fn new() -> (detector: Self)
        ensures
            detector.connections() == Seq::<ConnectionRecord>::empty(),
            detector.events() == Seq::<EventRecord>::empty(),
            detector.policy() == MergePolicy::Accumulate,
    {
        ReverseShellDetector {
            detected_events: EventLog::new(),
            connection_tracker: ConnectionTable::new(),
        }
    }

    /// A detector like `new`, with the given policy for connections that
    /// are observed again.
    pub fn with_policy(policy: MergePolicy) -> (detector: Self)
        ensures
            detector.connections() == Seq::<ConnectionRecord>::empty(),
            detector.events() == Seq::<EventRecord>::empty(),
            detector.policy() == policy,
    {
        ReverseShellDetector {
            detected_events: EventLog::new(),
            connection_tracker: ConnectionTable::with_policy(policy),
        }
    }

    /// Puts `record` into the connection table: merged with the record
    /// of the same key where there is one, added at the end where not.
    /// No two tracked connections have the same key, before or after.
    pub fn upsert(&mut self, record: ConnectionInfo)
        ensures
            final(self).policy() == old(self).policy(),
            final(self).events() == old(self).events(),
            final(self).connections() == upserted(
                old(self).connections(),
                record@,
                old(self).policy(),
            ),
            distinct_keys(old(self).connections()),
            distinct_keys(final(self).connections()),
    {
        self.connection_tracker.upsert(record);
    }

    /// Adds `event` at the end of the event log.
    pub fn append(&mut self, event: ReverseShellEvent)
        ensures
            final(self).policy() == old(self).policy(),
            final(self).connections() == old(self).connections(),
            final(self).events() == old(self).events().push(event@),
    {
        self.detected_events.append(event);
    }

    /// A copy of every tracked connection, in the order in which they
    /// were first seen. No two of them have the same key.
    pub fn snapshot(&self) -> (list: Vec<ConnectionInfo>)
        ensures
            records(list@) == self.connections(),
            distinct_keys(self.connections()),
    {
        self.connection_tracker.snapshot()
    }

    /// A copy of the tracked connections that are flagged as suspicious.
    pub fn get_suspicious_connections(&self) -> (list: Vec<ConnectionInfo>)
        ensures
            records(list@) == self.connections().filter(|r: ConnectionRecord| r.is_suspicious),
    {
        self.connection_tracker.suspicious_snapshot()
    }

    /// A copy of every detection made so far, oldest first.
    pub fn get_detected_events(&self) -> (list: Vec<ReverseShellEvent>)
        ensures
            event_records(list@) == self.events(),
    {
        self.detected_events.snapshot()
    }

    /// A copy of the last `n` detections, oldest first.
    pub fn recent_events(&self, n: usize) -> (list: Vec<ReverseShellEvent>)
        ensures
            event_records(list@) == latest(self.events(), n as nat),
    {
        self.detected_events.recent(n)
    }

    /// The number of tracked connections.
    pub fn connection_count(&self) -> (n: usize)
        ensures
            n == self.connections().len(),
    {
        self.connection_tracker.len()
    }

    /// The number of detections made so far.
    pub fn event_count(&self) -> (n: usize)
        ensures
            n == self.events().len(),
    {
        self.detected_events.count()
    }
}

impl Default for ReverseShellDetector {
    fn default() -> (detector: Self)
        ensures
            detector.connections() == Seq::<ConnectionRecord>::empty(),
            detector.events() == Seq::<EventRecord>::empty(),
            detector.policy() == MergePolicy::Accumulate,
    {
        Self::new()
    }
}

} // verus!
