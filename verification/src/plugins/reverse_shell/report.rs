//! The report: counts and the latest detections as text.

use super::connection::ConnectionRecord;
use super::detector::ReverseShellDetector;
use super::event::{event_records, latest, EventRecord, ReverseShellEvent};
use super::numeral::{append_decimal, decimal};
use super::text::joined;
use vstd::prelude::*;
use vstd::string::StringExecFns;

verus! {

/// The number of detections that a report shows at most.
pub const REPORT_EVENTS: usize = 10;

/// The age of a detection at the time `now`, in seconds; zero for a
/// detection that was made later than `now`.
pub open spec fn age(event: EventRecord, now: u64) -> nat {
    if now >= event.timestamp {
        (now - event.timestamp) as nat
    } else {
        0
    }
}

/// The line that a report shows for a detection: its age in square
/// brackets, its severity and its details.
pub open spec fn event_line(event: EventRecord, now: u64) -> Seq<char> {
    "["@ + decimal(age(event, now)) + "] "@ + event.severity.label() + " - "@ + event.details
}

/// The lines that a report shows for a list of detections.
pub open spec fn event_lines(events: Seq<EventRecord>, now: u64) -> Seq<Seq<char>> {
    events.map_values(|e: EventRecord| event_line(e, now))
}

/// The report on a log of detections and a number of suspicious
/// connections at the time `now`: a title, the two counts, and a line
/// for each of the latest `REPORT_EVENTS` detections, oldest first.
pub open spec fn report_text(events: Seq<EventRecord>, suspicious: nat, now: u64) -> Seq<char> {
    "Kernel-based Reverse Shell Detection Report\n"@
        + "===========================================\n"@ + "Total Events Detected: "@ + decimal(
        events.len(),
    ) + "\nSuspicious Connections: "@ + decimal(suspicious) + "\n\nRecent Events:\n"@ + joined(
        event_lines(latest(events, REPORT_EVENTS as nat), now),
        "\n"@,
    )
}

/// The report on a detector that has detected nothing and tracks no
/// suspicious connection: both counts are zero and no event line
/// follows the last heading, whatever the time is.
pub proof fn lemma_empty_report(now: u64)
    ensures
        report_text(Seq::<EventRecord>::empty(), 0, now)
            == "Kernel-based Reverse Shell Detection Report\n"@
            + "===========================================\n"@ + "Total Events Detected: "@
            + "0"@ + "\nSuspicious Connections: "@ + "0"@ + "\n\nRecent Events:\n"@,
{
    reveal_strlit("0");
    let none = Seq::<EventRecord>::empty();
    assert(decimal(0) =~= "0"@);
    assert(event_lines(latest(none, REPORT_EVENTS as nat), now) =~= Seq::<Seq<char>>::empty());
    let head = "Kernel-based Reverse Shell Detection Report\n"@
        + "===========================================\n"@ + "Total Events Detected: "@ + "0"@
        + "\nSuspicious Connections: "@ + "0"@ + "\n\nRecent Events:\n"@;
    assert(head + Seq::<char>::empty() =~= head);
}

impl ReverseShellDetector {
    /// Writes the line that a report shows for `event` at the end of
    /// `out`.
    fn append_event_line(out: &mut String, event: &ReverseShellEvent, now: u64)
        ensures
            final(out)@ == old(out)@ + event_line(event@, now),
    {
        let age: u64 = if now >= event.timestamp {
            now - event.timestamp
        } else {
            0
        };
        out.append("[");
        append_decimal(out, age);
        out.append("] ");
        out.append(event.severity.name());
        out.append(" - ");
        out.append(event.details.as_str());
        proof {
            assert(out@ =~= old(out)@ + event_line(event@, now));
        }
    }

    /// The report at the time `now`: the number of detections, the
    /// number of connections that are flagged as suspicious, and the
    /// latest detections with their age in seconds.
    pub fn generate_report(&self, now: u64) -> (text: String)
        ensures
            text@ == report_text(
                self.events(),
                self.connections().filter(|r: ConnectionRecord| r.is_suspicious).len(),
                now,
            ),
    {
        let connections = self.get_suspicious_connections();
        let recent = self.recent_events(REPORT_EVENTS);
        let mut text = String::from_str("Kernel-based Reverse Shell Detection Report\n");
        text.append("===========================================\n");
        text.append("Total Events Detected: ");
        append_decimal(&mut text, self.event_count() as u64);
        text.append("\nSuspicious Connections: ");
        append_decimal(&mut text, connections.len() as u64);
        text.append("\n\nRecent Events:\n");
        let ghost head = text@;
        let ghost lines = event_lines(event_records(recent@), now);
        let mut i: usize = 0;
        proof {
            assert(head + joined(lines.take(0), "\n"@) =~= head);
        }
        while i < recent.len()
            invariant
                0 <= i <= recent@.len(),
                lines == event_lines(event_records(recent@), now),
                text@ == head + joined(lines.take(i as int), "\n"@),
            decreases recent@.len() - i,
        {
            let ghost before = text@;
            if i > 0 {
                text.append("\n");
            }
            Self::append_event_line(&mut text, &recent[i], now);
            proof {
                let next = lines.take(i + 1);
                assert(next.drop_last() =~= lines.take(i as int));
                assert(next.last() == event_line(recent@[i as int]@, now));
                if i > 0 {
                    assert(text@ =~= head + (joined(lines.take(i as int), "\n"@) + "\n"@
                        + next.last()));
                } else {
                    assert(text@ =~= head + next.last());
                }
            }
            i += 1;
        }
        proof {
            assert(lines.take(i as int) =~= lines);
            assert(text@ =~= report_text(
                self.events(),
                self.connections().filter(|r: ConnectionRecord| r.is_suspicious).len(),
                now,
            ));
        }
        text
    }
}

} // verus!
