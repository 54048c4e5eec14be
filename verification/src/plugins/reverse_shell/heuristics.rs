//! The heuristics: which connections and which processes look like a
//! reverse shell.

use super::connection::{ConnectionInfo, ConnectionRecord};
use super::detector::ReverseShellDetector;
use super::text::{chars_of, contains_text, text_contains};
use vstd::prelude::*;

verus! {

/// The remote ports that reverse shells commonly use.
pub open spec fn suspicious_ports() -> Seq<u16> {
    seq![4444, 8080, 9001, 9002, 1337, 31337, 54321, 12345, 6667, 6668, 6669]
}

/// Whether an address lies in one of the private ranges: `127.0.0.0/8`,
/// `10.0.0.0/8`, `172.16.0.0/12` or `192.168.0.0/16`.
pub open spec fn is_private(ip: u32) -> bool {
    ||| 0x7F00_0000 <= ip <= 0x7FFF_FFFF
    ||| 0x0A00_0000 <= ip <= 0x0AFF_FFFF
    ||| 0xAC10_0000 <= ip <= 0xAC1F_FFFF
    ||| 0xC0A8_0000 <= ip <= 0xC0A8_FFFF
}

/// Whether a connection is suspicious: its remote port is one of
/// `suspicious_ports`, or its remote address is not private, or its
/// remote port lies strictly between 1024 and 49152.
pub open spec fn is_suspicious_connection(record: ConnectionRecord) -> bool {
    ||| suspicious_ports().contains(record.remote_port)
    ||| !is_private(record.remote_addr)
    ||| 1024 < record.remote_port < 49152
}

/// The texts that make a command name suspicious.
pub open spec fn suspicious_patterns() -> Seq<Seq<char>> {
    seq![
        "nc"@,
        "netcat"@,
        "bash -i"@,
        "sh -i"@,
        "python -c"@,
        "perl -e"@,
        "ruby -rsocket"@,
        "php -r"@,
        "wget"@,
        "curl"@,
        "ftp"@,
        "telnet"@,
        "ssh"@,
        "scp"@,
        "rsync"@,
        "nc.traditional"@,
        "ncat"@,
    ]
}

/// Whether a command name is suspicious: one of `suspicious_patterns`
/// stands somewhere in it, letter for letter.
pub open spec fn is_suspicious_name(name: Seq<char>) -> bool {
    exists|k: int|
        0 <= k < suspicious_patterns().len() && contains_text(
            name,
            #[trigger] suspicious_patterns()[k],
        )
}

/// The contents of a list of texts.
pub open spec fn texts(list: Seq<&'static str>) -> Seq<Seq<char>> {
    list.map_values(|t: &'static str| t@)
}

/// A connection to one of the listed ports is suspicious whatever its
/// addresses are.
pub proof fn lemma_listed_port_is_suspicious(record: ConnectionRecord)
    requires
        suspicious_ports().contains(record.remote_port),
    ensures
        is_suspicious_connection(record),
{
}

/// A connection is not suspicious only where its remote address is
/// private and its remote port is unlisted and outside the band between
/// 1024 and 49152.
pub proof fn lemma_unsuspicious_connection(record: ConnectionRecord)
    ensures
        !is_suspicious_connection(record) <==> {
            &&& is_private(record.remote_addr)
            &&& !suspicious_ports().contains(record.remote_port)
            &&& (record.remote_port <= 1024 || record.remote_port >= 49152)
        },
{
}

impl ReverseShellDetector {
    /// The remote ports that reverse shells commonly use: the list with
    /// which a kernel probe's table of ports is filled.
    pub fn suspicious_port_list() -> (ports: Vec<u16>)
        ensures
            ports@ == suspicious_ports(),
    {
        let ports: Vec<u16> = vec![
            4444,
            8080,
            9001,
            9002,
            1337,
            31337,
            54321,
            12345,
            6667,
            6668,
            6669,
        ];
        proof {
            assert(ports@ =~= suspicious_ports());
        }
        ports
    }

    /// The texts that make a command name suspicious.
    fn suspicious_pattern_list() -> (patterns: Vec<&'static str>)
        ensures
            texts(patterns@) == suspicious_patterns(),
    {
        let patterns: Vec<&'static str> = vec![
            "nc",
            "netcat",
            "bash -i",
            "sh -i",
            "python -c",
            "perl -e",
            "ruby -rsocket",
            "php -r",
            "wget",
            "curl",
            "ftp",
            "telnet",
            "ssh",
            "scp",
            "rsync",
            "nc.traditional",
            "ncat",
        ];
        proof {
            assert(texts(patterns@) =~= suspicious_patterns());
        }
        patterns
    }

    /// Tests whether an address lies in one of the private ranges.
    pub fn is_private_ip_u32(ip_u32: u32) -> (b: bool)
        ensures
            b == is_private(ip_u32),
    {
        proof {
            assert(((ip_u32 & 0xFF00_0000) == 0x7F00_0000) == (0x7F00_0000 <= ip_u32
                <= 0x7FFF_FFFF)) by (bit_vector);
            assert(((ip_u32 & 0xFF00_0000) == 0x0A00_0000) == (0x0A00_0000 <= ip_u32
                <= 0x0AFF_FFFF)) by (bit_vector);
            assert(((ip_u32 & 0xFFF0_0000) == 0xAC10_0000) == (0xAC10_0000 <= ip_u32
                <= 0xAC1F_FFFF)) by (bit_vector);
            assert(((ip_u32 & 0xFFFF_0000) == 0xC0A8_0000) == (0xC0A8_0000 <= ip_u32
                <= 0xC0A8_FFFF)) by (bit_vector);
        }
        (ip_u32 & 0xFF00_0000) == 0x7F00_0000 || (ip_u32 & 0xFF00_0000) == 0x0A00_0000 || (ip_u32
            & 0xFFF0_0000) == 0xAC10_0000 || (ip_u32 & 0xFFFF_0000) == 0xC0A8_0000
    }

    /// Tests whether a port is one of the listed ones.
    fn is_suspicious_port(port: u16) -> (b: bool)
        ensures
            b == suspicious_ports().contains(port),
    {
        let ports = Self::suspicious_port_list();
        let mut i: usize = 0;
        while i < ports.len()
            invariant
                ports@ == suspicious_ports(),
                0 <= i <= ports@.len(),
                forall|j: int| 0 <= j < i ==> ports@[j] != port,
            decreases ports@.len() - i,
        {
            if ports[i] == port {
                return true;
            }
            i += 1;
        }
        false
    }

    /// Tests whether a connection is suspicious.
    pub fn is_suspicious_connection_pattern(conn: &ConnectionInfo) -> (b: bool)
        ensures
            b == is_suspicious_connection(conn@),
    {
        if Self::is_suspicious_port(conn.remote_port) {
            return true;
        }
        if !Self::is_private_ip_u32(conn.remote_addr) {
            return true;
        }
        if conn.remote_port > 1024 && conn.remote_port < 49152 {
            return true;
        }
        false
    }

    /// Tests whether a command name is suspicious.
    pub fn is_suspicious_process(process_name: &str) -> (b: bool)
        ensures
            b == is_suspicious_name(process_name@),
    {
        let name = chars_of(process_name);
        Self::is_suspicious_text(name.as_slice())
    }

    /// `is_suspicious_process` on characters.
    pub(crate) fn is_suspicious_text(name: &[char]) -> (b: bool)
        ensures
            b == is_suspicious_name(name@),
    {
        let patterns = Self::suspicious_pattern_list();
        let mut i: usize = 0;
        while i < patterns.len()
            invariant
                texts(patterns@) == suspicious_patterns(),
                0 <= i <= patterns@.len(),
                forall|k: int| 0 <= k < i ==> !contains_text(name@, suspicious_patterns()[k]),
            decreases patterns@.len() - i,
        {
            let pattern = chars_of(patterns[i]);
            proof {
                assert(texts(patterns@)[i as int] == patterns@[i as int]@);
            }
            if text_contains(name, pattern.as_slice()) {
                return true;
            }
            i += 1;
        }
        proof {
            assert(texts(patterns@).len() == patterns@.len());
        }
        false
    }
}

} // verus!
