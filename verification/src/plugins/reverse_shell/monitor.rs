//! The two detection cycles: connections that the kernel hooks would
//! report, and processes whose command name gives them away.

use super::address::dotted_quad;
use super::connection::{records, ConnectionInfo, ConnectionRecord};
use super::detector::ReverseShellDetector;
use super::event::{EventRecord, EventType, ReverseShellEvent, Severity};
use super::heuristics::{is_suspicious_connection, is_suspicious_name};
use super::numeral::{append_decimal, decimal};
use super::process::{listed_names, process_records, string_views, ProcessEntry};
use vstd::prelude::*;
use vstd::string::StringExecFns;

verus! {

/// The detection that a suspicious connection gives rise to.
pub open spec fn kernel_event(record: ConnectionRecord, now: u64) -> EventRecord {
    EventRecord {
        timestamp: now,
        event_type: EventType::KernelHookTriggered,
        severity: Severity::Critical,
        details: "Kernel hook detected suspicious connection: "@ + dotted_quad(record.local_addr)
            + " -> "@ + dotted_quad(record.remote_addr) + ":"@ + decimal(
            record.remote_port as nat,
        ),
        connection_info: Some(record),
    }
}

/// The detections that a table of connections gives rise to: one for
/// every suspicious connection, in the order of the table.
pub open spec fn kernel_events(table: Seq<ConnectionRecord>, now: u64) -> Seq<EventRecord> {
    table.filter(|r: ConnectionRecord| is_suspicious_connection(r)).map_values(
        |r: ConnectionRecord| kernel_event(r, now),
    )
}

/// The detection that a suspicious command name gives rise to.
pub open spec fn process_event(name: Seq<char>, now: u64) -> EventRecord {
    EventRecord {
        timestamp: now,
        event_type: EventType::ProcessInjection,
        severity: Severity::High,
        details: "Suspicious process detected: "@ + name,
        connection_info: None,
    }
}

/// The detections that a list of command names gives rise to: one for
/// every suspicious name, in the order of the list.
pub open spec fn process_events(names: Seq<Seq<char>>, now: u64) -> Seq<EventRecord> {
    names.filter(|name: Seq<char>| is_suspicious_name(name)).map_values(
        |name: Seq<char>| process_event(name, now),
    )
}

impl ReverseShellDetector {
    /// The detection that the suspicious connection `conn` gives rise
    /// to.
    fn kernel_event_for(conn: &ConnectionInfo, now: u64) -> (event: ReverseShellEvent)
        ensures
            event@ == kernel_event(conn@, now),
    {
        let mut details = String::from_str("Kernel hook detected suspicious connection: ");
        let local = Self::u32_to_ip(conn.local_addr);
        details.append(local.as_str());
        details.append(" -> ");
        let remote = Self::u32_to_ip(conn.remote_addr);
        details.append(remote.as_str());
        details.append(":");
        append_decimal(&mut details, conn.remote_port as u64);
        ReverseShellEvent {
            timestamp: now,
            event_type: EventType::KernelHookTriggered,
            severity: Severity::Critical,
            details,
            connection_info: Some(conn.clone()),
        }
    }

    /// One cycle of the kernel-event monitor: every tracked connection
    /// that is suspicious is reported as a critical detection made at
    /// `now`. The connection table stays as it is.
    pub fn process_kernel_events(&mut self, now: u64)
        ensures
            final(self).policy() == old(self).policy(),
            final(self).connections() == old(self).connections(),
            final(self).events() == old(self).events() + kernel_events(
                old(self).connections(),
                now,
            ),
    {
        let snapshot = self.snapshot();
        let ghost table = records(snapshot@);
        let ghost keep = |r: ConnectionRecord| is_suspicious_connection(r);
        let ghost event_of = |r: ConnectionRecord| kernel_event(r, now);
        let mut i: usize = 0;
        proof {
            assert(old(self).events() + table.take(0).filter(keep).map_values(event_of) =~= old(
                self,
            ).events());
        }
        while i < snapshot.len()
            invariant
                0 <= i <= snapshot@.len(),
                table == records(snapshot@),
                table == old(self).connections(),
                keep == (|r: ConnectionRecord| is_suspicious_connection(r)),
                event_of == (|r: ConnectionRecord| kernel_event(r, now)),
                self.policy() == old(self).policy(),
                self.connections() == old(self).connections(),
                self.events() == old(self).events() + table.take(i as int).filter(keep).map_values(
                    event_of,
                ),
            decreases snapshot@.len() - i,
        {
            proof {
                let next = table.take(i + 1);
                assert(next.drop_last() =~= table.take(i as int));
                assert(next.last() == snapshot@[i as int]@);
                reveal(Seq::filter);
            }
            if Self::is_suspicious_connection_pattern(&snapshot[i]) {
                let ghost kept = table.take(i as int).filter(keep);
                let event = Self::kernel_event_for(&snapshot[i], now);
                self.append(event);
                proof {
                    assert(kept.push(table[i as int]).map_values(event_of) =~= kept.map_values(
                        event_of,
                    ).push(event@));
                    assert((old(self).events() + kept.map_values(event_of)).push(event@) =~= old(
                        self,
                    ).events() + kept.map_values(event_of).push(event@));
                }
            }
            i += 1;
        }
        proof {
            assert(table.take(i as int) =~= table);
        }
    }

    /// One cycle of the process monitor: every running process whose
    /// command name is suspicious is reported as a detection of high
    /// severity made at `now`. The connection table stays as it is.
    pub fn scan_process_creation(&mut self, processes: &Vec<ProcessEntry>, now: u64)
        ensures
            final(self).policy() == old(self).policy(),
            final(self).connections() == old(self).connections(),
            final(self).events() == old(self).events() + process_events(
                listed_names(process_records(processes@)),
                now,
            ),
    {
        let current = Self::get_current_processes(processes);
        let ghost names = string_views(current@);
        let ghost keep = |name: Seq<char>| is_suspicious_name(name);
        let ghost event_of = |name: Seq<char>| process_event(name, now);
        let mut i: usize = 0;
        proof {
            assert(old(self).events() + names.take(0).filter(keep).map_values(event_of) =~= old(
                self,
            ).events());
        }
        while i < current.len()
            invariant
                0 <= i <= current@.len(),
                names == string_views(current@),
                keep == (|name: Seq<char>| is_suspicious_name(name)),
                event_of == (|name: Seq<char>| process_event(name, now)),
                self.policy() == old(self).policy(),
                self.connections() == old(self).connections(),
                self.events() == old(self).events() + names.take(i as int).filter(keep).map_values(
                    event_of,
                ),
            decreases current@.len() - i,
        {
            proof {
                let next = names.take(i + 1);
                assert(next.drop_last() =~= names.take(i as int));
                assert(next.last() == current@[i as int]@);
                reveal(Seq::filter);
            }
            let process = current[i].as_str();
            if Self::is_suspicious_process(process) {
                let ghost kept = names.take(i as int).filter(keep);
                let mut details = String::from_str("Suspicious process detected: ");
                details.append(process);
                let event = ReverseShellEvent {
                    timestamp: now,
                    event_type: EventType::ProcessInjection,
                    severity: Severity::High,
                    details,
                    connection_info: None,
                };
                self.append(event);
                proof {
                    assert(kept.push(names[i as int]).map_values(event_of) =~= kept.map_values(
                        event_of,
                    ).push(event@));
                    assert((old(self).events() + kept.map_values(event_of)).push(event@) =~= old(
                        self,
                    ).events() + kept.map_values(event_of).push(event@));
                }
            }
            i += 1;
        }
        proof {
            assert(names.take(i as int) =~= names);
        }
    }
}

} // verus!
