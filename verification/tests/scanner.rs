use linux_agent::plugins::reverse_shell::{
    MergePolicy, ParseError, ProcessEntry, ReverseShellDetector,
};

const HEADER: &str = "  sl  local_address rem_address   st tx_queue rx_queue tr tm->when retrnsmt   uid  timeout inode";
const LISTEN: &str = "   0: 0100007F:1F90 00000000:0000 0A 00000000:00000000 00:00000000 00000000     0        0 11111 1 0000000000000000 100 0 0 10 0";
const WEB: &str = "   1: 0A01A8C0:D431 08080808:01BB 01 00000000:00000000 00:00000000 00000000  1000        0 67890 1 0000000000000000 20 4 30 10 -1";
const SHELL: &str = "   2: 0A01A8C0:C350 0200A8C0:115C 01 00000000:00000000 00:00000000 00000000  1000        0 24680 1 0000000000000000 20 4 30 10 -1";
const CLOSING: &str = "   3: 0A01A8C0:C351 0200A8C0:0016 06 00000000:00000000 03:00000F2B 00000000     0        0 0 3 0000000000000000";

fn table(lines: &[&str]) -> String {
    let mut text = String::from(HEADER);
    for line in lines {
        text.push('\n');
        text.push_str(line);
    }
    text.push('\n');
    text
}

fn processes() -> Vec<ProcessEntry> {
    vec![
        ProcessEntry {
            pid: 1,
            cmdline: Some("/sbin/init\0splash\0".to_string()),
            fd_targets: vec!["/dev/null".to_string(), "socket:[11111]".to_string()],
        },
        ProcessEntry {
            pid: 4242,
            cmdline: Some("curl\0https://example.org\0".to_string()),
            fd_targets: vec![
                "/dev/pts/0".to_string(),
                "pipe:[67890]".to_string(),
                "socket:[67890]".to_string(),
            ],
        },
        ProcessEntry {
            pid: 5000,
            cmdline: Some("bash\0-i\0".to_string()),
            fd_targets: vec!["socket:[24680]".to_string()],
        },
    ]
}

#[test]
fn established_line_is_read() {
    let tcp = table(&[LISTEN, WEB, SHELL]);
    let conn = ReverseShellDetector::parse_tcp_line(WEB, &tcp, &processes(), 77)
        .unwrap()
        .unwrap();
    assert_eq!(conn.local_addr, 0xC0A8010A);
    assert_eq!(conn.local_port, 54321);
    assert_eq!(conn.remote_addr, 0x08080808);
    assert_eq!(conn.remote_port, 443);
    assert_eq!(conn.pid, 4242);
    assert_eq!(conn.process_name, "curl");
    assert_eq!(conn.first_seen, 77);
    assert_eq!(conn.last_seen, 77);
    assert_eq!(conn.connection_count, 1);
    assert!(!conn.is_suspicious);
}

#[test]
fn line_in_another_state_yields_nothing() {
    let tcp = table(&[LISTEN, WEB, CLOSING]);
    assert!(ReverseShellDetector::parse_tcp_line(CLOSING, &tcp, &processes(), 1)
        .unwrap()
        .is_none());
    assert!(ReverseShellDetector::parse_tcp_line(LISTEN, &tcp, &processes(), 1)
        .unwrap()
        .is_none());
    let other = "0: 0100007F:1F90 0100007F:1F91 1 0 0 0 0 0 5";
    assert!(ReverseShellDetector::parse_tcp_line(other, &tcp, &processes(), 1)
        .unwrap()
        .is_none());
    let other = "0: 0100007F:1F90 0100007F:1F91 001 0 0 0 0 0 5";
    assert!(ReverseShellDetector::parse_tcp_line(other, &tcp, &processes(), 1)
        .unwrap()
        .is_none());
}

#[test]
fn short_line_yields_nothing() {
    let tcp = table(&[WEB]);
    for line in ["", "   ", "0:", "0: 0100007F:1F90", "0: 0100007F:1F90 00000000:0000", "a b c"] {
        assert!(
            ReverseShellDetector::parse_tcp_line(line, &tcp, &processes(), 1).unwrap().is_none(),
            "{:?}",
            line
        );
    }
}

#[test]
fn state_is_tested_before_the_endpoints() {
    let tcp = table(&[WEB]);
    assert!(ReverseShellDetector::parse_tcp_line("0: junk junk 0A", &tcp, &processes(), 1)
        .unwrap()
        .is_none());
    assert!(ReverseShellDetector::parse_tcp_line(HEADER, &tcp, &processes(), 1)
        .unwrap()
        .is_none());
}

#[test]
fn line_with_four_fields_is_enough() {
    let conn = ReverseShellDetector::parse_tcp_line(
        "9: 0100007F:0016 0101A8C0:C000 01",
        "",
        &Vec::new(),
        3,
    )
    .unwrap()
    .unwrap();
    assert_eq!(
        (conn.local_addr, conn.local_port, conn.remote_addr, conn.remote_port),
        (0x7F000001, 22, 0xC0A80101, 49152)
    );
    assert_eq!(conn.pid, 0);
    assert_eq!(conn.process_name, "unknown");
}

#[test]
fn fields_may_be_separated_by_any_white_space() {
    let conn = ReverseShellDetector::parse_tcp_line(
        "\t9:\u{a0}0100007F:0016\t\t0101A8C0:C000 \u{3000} 01\r",
        "",
        &Vec::new(),
        3,
    )
    .unwrap()
    .unwrap();
    assert_eq!(
        (conn.local_addr, conn.local_port, conn.remote_addr, conn.remote_port),
        (0x7F000001, 22, 0xC0A80101, 49152)
    );
}

#[test]
fn malformed_endpoint_is_an_error() {
    let tcp = table(&[WEB]);
    let p = processes();
    let check = |line: &str| ReverseShellDetector::parse_tcp_line(line, &tcp, &p, 1).unwrap_err();
    assert_eq!(check("0: 0100007F 00000000:0000 01"), ParseError::InvalidFormat);
    assert_eq!(check("0: 0100007:1F90 00000000:0000 01"), ParseError::InvalidAddressLength);
    assert_eq!(check("0: 0100007G:1F90 00000000:0000 01"), ParseError::InvalidAddressDigit);
    assert_eq!(check("0: 0100007F:1F9 00000000:0000 01"), ParseError::InvalidPort);
    assert_eq!(check("0: 0100007F:1F90 00000000-0000 01"), ParseError::InvalidFormat);
    assert_eq!(check("0: 0100007F:1F90 0000000:0000 01"), ParseError::InvalidAddressLength);
    assert_eq!(check("0: 0100007F:1F90 0000000Z:0000 01"), ParseError::InvalidAddressDigit);
    assert_eq!(check("0: 0100007F:1F90 00000000:00000 01"), ParseError::InvalidPort);
    assert_eq!(check("0: 0100007F:1F9 0000000Z:0000 01"), ParseError::InvalidPort);
}

#[test]
fn line_of_the_ipv6_table_with_long_addresses_is_malformed() {
    let line = "   0: 00000000000000000000000001000000:1F90 00000000000000000000000001000000:C5A2 01 00000000:00000000 00:00000000 00000000  1000        0 13579 1 0000000000000000";
    let r = ReverseShellDetector::parse_tcp6_line(line, "", &Vec::new(), 1);
    assert_eq!(r.unwrap_err(), ParseError::InvalidAddressLength);
    let listening = "   0: 00000000000000000000000000000000:0016 00000000000000000000000000000000:0000 0A 00000000:00000000 00:00000000 00000000     0        0 13579 1 0000000000000000";
    assert!(ReverseShellDetector::parse_tcp6_line(listening, "", &Vec::new(), 1)
        .unwrap()
        .is_none());
}

#[test]
fn ipv6_line_parser_reads_what_the_ipv4_one_reads() {
    let tcp = table(&[LISTEN, WEB, SHELL]);
    let a = ReverseShellDetector::parse_tcp_line(SHELL, &tcp, &processes(), 5).unwrap().unwrap();
    let b = ReverseShellDetector::parse_tcp6_line(SHELL, &tcp, &processes(), 5).unwrap().unwrap();
    assert_eq!(
        (a.local_addr, a.local_port, a.remote_addr, a.remote_port, a.pid),
        (b.local_addr, b.local_port, b.remote_addr, b.remote_port, b.pid)
    );
    assert_eq!(a.process_name, b.process_name);
    assert_eq!(a.remote_port, 4444);
    assert_eq!(a.remote_addr, 0xC0A80002);
    assert_eq!(a.pid, 5000);
    assert_eq!(a.process_name, "bash");
}

#[test]
fn owner_is_looked_up_by_local_endpoint() {
    let tcp = table(&[LISTEN, WEB, SHELL]);
    let p = processes();
    let (pid, name) =
        ReverseShellDetector::get_process_info_for_connection(&tcp, 0xC0A8010A, 54321, &p);
    assert_eq!((pid, name.as_str()), (4242, "curl"));
    let (pid, name) =
        ReverseShellDetector::get_process_info_for_connection(&tcp, 0x7F000001, 8080, &p);
    assert_eq!((pid, name.as_str()), (1, "/sbin/init"));
    let (pid, name) =
        ReverseShellDetector::get_process_info_for_connection(&tcp, 0xC0A8010A, 50000, &p);
    assert_eq!((pid, name.as_str()), (5000, "bash"));
}

#[test]
fn owner_is_unknown_without_a_matching_line() {
    let tcp = table(&[LISTEN, WEB, SHELL]);
    let p = processes();
    let (pid, name) =
        ReverseShellDetector::get_process_info_for_connection(&tcp, 0xC0A8010A, 54322, &p);
    assert_eq!((pid, name.as_str()), (0, "unknown"));
    let (pid, name) =
        ReverseShellDetector::get_process_info_for_connection(&tcp, 0xC0A8010B, 54321, &p);
    assert_eq!((pid, name.as_str()), (0, "unknown"));
    let (pid, name) = ReverseShellDetector::get_process_info_for_connection("", 0, 0, &p);
    assert_eq!((pid, name.as_str()), (0, "unknown"));
}

#[test]
fn owner_lookup_passes_over_the_header_and_over_short_or_malformed_lines() {
    let p = processes();
    let header_like = "0: 0A01A8C0:D431 08080808:01BB 01 a b c d e 67890";
    let (pid, _) =
        ReverseShellDetector::get_process_info_for_connection(header_like, 0xC0A8010A, 54321, &p);
    assert_eq!(pid, 0);
    let tcp = table(&[
        "0: 0A01A8C0:D431 08080808:01BB 01 a b c d 24680",
        "1: 0A01A8C0:D43 08080808:01BB 01 a b c d e 24680",
        "2: garbage 08080808:01BB 01 a b c d e 24680",
        WEB,
    ]);
    let (pid, name) =
        ReverseShellDetector::get_process_info_for_connection(&tcp, 0xC0A8010A, 54321, &p);
    assert_eq!((pid, name.as_str()), (4242, "curl"));
}

#[test]
fn owner_lookup_stops_at_the_first_matching_line() {
    let p = processes();
    let tcp = table(&[
        "0: 0A01A8C0:D431 00000000:0000 0A a b c d e 99999",
        WEB,
    ]);
    let (pid, name) =
        ReverseShellDetector::get_process_info_for_connection(&tcp, 0xC0A8010A, 54321, &p);
    assert_eq!((pid, name.as_str()), (0, "unknown"));
}

#[test]
fn scan_fills_the_table() {
    let tcp = table(&[LISTEN, WEB, SHELL, CLOSING]);
    let mut detector = ReverseShellDetector::new();
    detector.scan_network_connections(&tcp, HEADER, &processes(), 10);
    let list = detector.snapshot();
    assert_eq!(list.len(), 2);
    assert_eq!(list[0].remote_port, 443);
    assert_eq!(list[0].process_name, "curl");
    assert_eq!(list[0].pid, 4242);
    assert_eq!(list[1].remote_port, 4444);
    assert_eq!(list[1].process_name, "bash");
    assert_eq!(list[1].pid, 5000);
    assert_eq!(detector.connection_count(), 2);
    assert_eq!(detector.event_count(), 0);
    assert!(detector.get_suspicious_connections().is_empty());
}

#[test]
fn scan_passes_over_the_header_line() {
    let mut detector = ReverseShellDetector::new();
    detector.scan_network_connections(WEB, SHELL, &Vec::new(), 10);
    assert_eq!(detector.connection_count(), 0);
    detector.scan_network_connections("", "", &Vec::new(), 10);
    assert_eq!(detector.connection_count(), 0);
    detector.scan_network_connections(HEADER, HEADER, &Vec::new(), 10);
    assert_eq!(detector.connection_count(), 0);
}

#[test]
fn scan_passes_over_malformed_lines() {
    let tcp = table(&[
        "garbage",
        "0: 0100007G:1F90 00000000:0000 01",
        WEB,
        "",
        "1: 0A01A8C0:D431 08080808 01",
        "2: 0A01A8C0:D431 08080808:1BB 01",
        SHELL,
        "\u{e9}\u{e9} \u{e9} \u{e9} 01",
    ]);
    let tcp6 = table(&[
        "   0: 00000000000000000000000001000000:1F90 00000000000000000000000001000000:C5A2 01 0 0 0 0 0 13579",
    ]);
    let mut detector = ReverseShellDetector::new();
    detector.scan_network_connections(&tcp, &tcp6, &processes(), 10);
    let list = detector.snapshot();
    assert_eq!(list.len(), 2);
    assert_eq!(list[0].remote_port, 443);
    assert_eq!(list[1].remote_port, 4444);
}

#[test]
fn scan_reads_both_tables_and_resolves_in_the_ipv4_table() {
    let tcp = table(&[WEB]);
    let tcp6 = table(&[SHELL, WEB]);
    let mut detector = ReverseShellDetector::new();
    detector.scan_network_connections(&tcp, &tcp6, &processes(), 10);
    let list = detector.snapshot();
    assert_eq!(list.len(), 2);
    assert_eq!(list[0].remote_port, 443);
    assert_eq!(list[0].pid, 4242);
    assert_eq!(list[0].connection_count, 2);
    assert_eq!(list[1].remote_port, 4444);
    assert_eq!(list[1].pid, 0);
    assert_eq!(list[1].process_name, "unknown");
    assert_eq!(list[1].connection_count, 1);
}

#[test]
fn repeated_scans_update_the_records() {
    let tcp = table(&[WEB, SHELL]);
    let mut detector = ReverseShellDetector::new();
    detector.scan_network_connections(&tcp, "", &processes(), 10);
    detector.scan_network_connections(&tcp, "", &processes(), 15);
    let later = table(&[SHELL]);
    detector.scan_network_connections(&later, "", &Vec::new(), 20);
    let list = detector.snapshot();
    assert_eq!(list.len(), 2);
    assert_eq!((list[0].first_seen, list[0].last_seen, list[0].connection_count), (10, 15, 2));
    assert_eq!(list[0].process_name, "curl");
    assert_eq!((list[1].first_seen, list[1].last_seen, list[1].connection_count), (10, 20, 3));
    assert_eq!(list[1].process_name, "unknown");
    assert_eq!(list[1].pid, 0);
}

#[test]
fn repeated_scans_overwrite_under_the_overwrite_policy() {
    let tcp = table(&[WEB, SHELL]);
    let mut detector = ReverseShellDetector::with_policy(MergePolicy::Overwrite);
    detector.scan_network_connections(&tcp, "", &processes(), 10);
    detector.scan_network_connections(&tcp, "", &processes(), 15);
    let list = detector.snapshot();
    assert_eq!(list.len(), 2);
    assert_eq!((list[0].first_seen, list[0].last_seen, list[0].connection_count), (15, 15, 1));
    assert_eq!((list[1].first_seen, list[1].last_seen, list[1].connection_count), (15, 15, 1));
}

#[test]
fn scan_takes_lines_that_end_in_carriage_return() {
    let tcp = format!("{}\r\n{}\r\n{}\r\n", HEADER, WEB, SHELL);
    let mut detector = ReverseShellDetector::new();
    detector.scan_network_connections(&tcp, "", &processes(), 10);
    let list = detector.snapshot();
    assert_eq!(list.len(), 2);
    assert_eq!(list[0].pid, 4242);
    assert_eq!(list[1].pid, 5000);
}

#[test]
fn scan_takes_a_table_without_a_final_line_feed() {
    let tcp = format!("{}\n{}", HEADER, WEB);
    let mut detector = ReverseShellDetector::new();
    detector.scan_network_connections(&tcp, "", &processes(), 10);
    assert_eq!(detector.connection_count(), 1);
}
