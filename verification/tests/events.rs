use linux_agent::plugins::reverse_shell::{
    ConnectionInfo, EventLog, EventType, ReverseShellEvent, Severity,
};

fn event(timestamp: u64, details: &str) -> ReverseShellEvent {
    ReverseShellEvent {
        timestamp,
        event_type: EventType::NetworkAnomaly,
        severity: Severity::Low,
        details: details.to_string(),
        connection_info: None,
    }
}

#[test]
fn new_log_is_empty() {
    let log = EventLog::new();
    assert_eq!(log.count(), 0);
    assert!(log.recent(10).is_empty());
    assert!(log.snapshot().is_empty());
}

#[test]
fn append_keeps_the_order() {
    let mut log = EventLog::new();
    log.append(event(1, "a"));
    log.append(event(2, "b"));
    log.append(event(3, "c"));
    assert_eq!(log.count(), 3);
    let all = log.snapshot();
    let details: Vec<&str> = all.iter().map(|e| e.details.as_str()).collect();
    assert_eq!(details, vec!["a", "b", "c"]);
    assert_eq!(all[0].timestamp, 1);
    assert_eq!(all[2].timestamp, 3);
}

#[test]
fn append_does_not_deduplicate() {
    let mut log = EventLog::new();
    log.append(event(1, "same"));
    log.append(event(1, "same"));
    assert_eq!(log.count(), 2);
}

#[test]
fn recent_gives_the_last_events_oldest_first() {
    let mut log = EventLog::new();
    for k in 0..7u64 {
        log.append(event(k, &format!("e{}", k)));
    }
    let last = log.recent(3);
    let details: Vec<&str> = last.iter().map(|e| e.details.as_str()).collect();
    assert_eq!(details, vec!["e4", "e5", "e6"]);
    assert_eq!(log.recent(0).len(), 0);
    assert_eq!(log.recent(1)[0].details, "e6");
    assert_eq!(log.recent(7).len(), 7);
    assert_eq!(log.recent(7)[0].details, "e0");
    assert_eq!(log.recent(8).len(), 7);
    assert_eq!(log.recent(usize::MAX).len(), 7);
    assert_eq!(log.count(), 7);
}

#[test]
fn event_copy_holds_the_connection() {
    let conn = ConnectionInfo {
        local_addr: 1,
        remote_addr: 2,
        local_port: 3,
        remote_port: 4,
        pid: 5,
        process_name: "nc".to_string(),
        first_seen: 6,
        last_seen: 7,
        connection_count: 8,
        is_suspicious: true,
    };
    let mut log = EventLog::new();
    log.append(ReverseShellEvent {
        timestamp: 9,
        event_type: EventType::ReverseShellDetected,
        severity: Severity::Critical,
        details: "d".to_string(),
        connection_info: Some(conn),
    });
    let copy = log.snapshot();
    assert_eq!(copy[0].event_type, EventType::ReverseShellDetected);
    assert_eq!(copy[0].severity, Severity::Critical);
    let c = copy[0].connection_info.as_ref().unwrap();
    assert_eq!(
        (c.local_addr, c.remote_addr, c.local_port, c.remote_port, c.pid),
        (1, 2, 3, 4, 5)
    );
    assert_eq!(c.process_name, "nc");
    assert_eq!((c.first_seen, c.last_seen, c.connection_count, c.is_suspicious), (6, 7, 8, true));
}

#[test]
fn severity_names() {
    assert_eq!(Severity::Low.name(), "Low");
    assert_eq!(Severity::Medium.name(), "Medium");
    assert_eq!(Severity::High.name(), "High");
    assert_eq!(Severity::Critical.name(), "Critical");
}
