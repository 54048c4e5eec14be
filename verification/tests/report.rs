use linux_agent::plugins::reverse_shell::{
    ConnectionInfo, EventType, ProcessEntry, ReverseShellDetector, ReverseShellEvent, Severity,
};

fn event(timestamp: u64, severity: Severity, details: &str) -> ReverseShellEvent {
    ReverseShellEvent {
        timestamp,
        event_type: EventType::NetworkAnomaly,
        severity,
        details: details.to_string(),
        connection_info: None,
    }
}

fn connection(local_port: u16, is_suspicious: bool) -> ConnectionInfo {
    ConnectionInfo {
        local_addr: 1,
        remote_addr: 2,
        local_port,
        remote_port: 4,
        pid: 5,
        process_name: "p".to_string(),
        first_seen: 0,
        last_seen: 0,
        connection_count: 1,
        is_suspicious,
    }
}

#[test]
fn report_on_empty_state() {
    let detector = ReverseShellDetector::new();
    let expected = "Kernel-based Reverse Shell Detection Report\n\
                    ===========================================\n\
                    Total Events Detected: 0\n\
                    Suspicious Connections: 0\n\
                    \n\
                    Recent Events:\n";
    assert_eq!(detector.generate_report(0), expected);
    assert_eq!(detector.generate_report(123456), expected);
    assert_eq!(detector.generate_report(u64::MAX), expected);
}

#[test]
fn report_is_the_same_for_the_same_state() {
    let mut detector = ReverseShellDetector::new();
    detector.append(event(5, Severity::High, "x"));
    let first = detector.generate_report(9);
    let second = detector.generate_report(9);
    assert_eq!(first, second);
    assert_eq!(detector.event_count(), 1);
}

#[test]
fn report_shows_counts_and_events() {
    let mut detector = ReverseShellDetector::new();
    detector.upsert(connection(1, true));
    detector.upsert(connection(2, false));
    detector.upsert(connection(3, true));
    detector.append(event(100, Severity::Low, "first"));
    detector.append(event(160, Severity::Medium, "second one"));
    detector.append(event(200, Severity::High, ""));
    detector.append(event(250, Severity::Critical, "later than now"));
    let expected = "Kernel-based Reverse Shell Detection Report\n\
                    ===========================================\n\
                    Total Events Detected: 4\n\
                    Suspicious Connections: 2\n\
                    \n\
                    Recent Events:\n\
                    [100] Low - first\n\
                    [40] Medium - second one\n\
                    [0] High - \n\
                    [0] Critical - later than now";
    assert_eq!(detector.generate_report(200), expected);
}

#[test]
fn report_shows_the_ten_latest_events() {
    let mut detector = ReverseShellDetector::new();
    for k in 0..12u64 {
        detector.append(event(k, Severity::High, &format!("event {}", k)));
    }
    let report = detector.generate_report(1011);
    let expected = "Kernel-based Reverse Shell Detection Report\n\
                    ===========================================\n\
                    Total Events Detected: 12\n\
                    Suspicious Connections: 0\n\
                    \n\
                    Recent Events:\n\
                    [1009] High - event 2\n\
                    [1008] High - event 3\n\
                    [1007] High - event 4\n\
                    [1006] High - event 5\n\
                    [1005] High - event 6\n\
                    [1004] High - event 7\n\
                    [1003] High - event 8\n\
                    [1002] High - event 9\n\
                    [1001] High - event 10\n\
                    [1000] High - event 11";
    assert_eq!(report, expected);
}

#[test]
fn report_with_exactly_ten_events_shows_all() {
    let mut detector = ReverseShellDetector::new();
    for k in 0..10u64 {
        detector.append(event(k, Severity::Low, "e"));
    }
    let report = detector.generate_report(9);
    assert_eq!(report.lines().count(), 16);
    assert!(report.contains("Total Events Detected: 10\n"));
    assert!(report.contains("\n[9] Low - e\n"));
    assert!(report.ends_with("[0] Low - e"));
}

#[test]
fn report_of_large_numbers() {
    let mut detector = ReverseShellDetector::new();
    detector.append(event(0, Severity::Critical, "old"));
    let report = detector.generate_report(u64::MAX);
    assert!(report.ends_with("Recent Events:\n[18446744073709551615] Critical - old"));
}

#[test]
fn report_after_the_cycles() {
    let mut detector = ReverseShellDetector::new();
    detector.upsert(ConnectionInfo {
        local_addr: 0xC0A8010A,
        remote_addr: 0x08080808,
        remote_port: 4444,
        ..connection(50000, false)
    });
    detector.process_kernel_events(10);
    detector.scan_process_creation(
        &vec![ProcessEntry {
            pid: 1,
            cmdline: Some("python -c 'x'\0".to_string()),
            fd_targets: Vec::new(),
        }],
        12,
    );
    let expected = "Kernel-based Reverse Shell Detection Report\n\
                    ===========================================\n\
                    Total Events Detected: 2\n\
                    Suspicious Connections: 0\n\
                    \n\
                    Recent Events:\n\
                    [5] Critical - Kernel hook detected suspicious connection: 192.168.1.10 -> 8.8.8.8:4444\n\
                    [3] High - Suspicious process detected: python -c 'x'";
    assert_eq!(detector.generate_report(15), expected);
}
