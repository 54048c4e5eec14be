//! The connection scanner: reading the kernel's TCP tables line by line
//! into connection records.

use super::address::{endpoint, ParseError};
use super::connection::{
    lemma_upserted_all_concat, upserted_all, ConnectionInfo, ConnectionRecord,
};
use super::detector::ReverseShellDetector;
use super::find::{first_index, lemma_first_index};
use super::process::{process_records, socket_owner, unknown_name, ProcessEntry, ProcessRecord};
use super::text::{chars_of, fields, split, split_fields, split_text, text_equal, views, Delimiter};
use vstd::prelude::*;
use vstd::string::StringExecFns;

verus! {

/// The state code of an established connection.
pub open spec fn established() -> Seq<char> {
    "01"@
}

/// The lines of a table after its header line: the parts of the text
/// between line feeds, but for the first.
pub open spec fn data_lines(table: Seq<char>) -> Seq<Seq<char>> {
    split(table, Delimiter::Char('\n')).skip(1)
}

/// Whether a line of the IPv4 table describes the socket with the given
/// local endpoint: it has ten fields or more, and its second field
/// denotes that address and port.
pub open spec fn is_row_of(line: Seq<char>, addr: nat, port: nat) -> bool {
    &&& fields(line).len() >= 10
    &&& endpoint(fields(line)[1]) == Ok::<(nat, nat), ParseError>((addr, port))
}

/// The id and the command name of the process that owns the socket with
/// the given local endpoint. The inode of that socket is the tenth
/// field of the first line of `rows` that describes it; where no line
/// does, or no process owns the inode, the owner is `(0, "unknown")`.
pub open spec fn connection_owner(
    rows: Seq<Seq<char>>,
    addr: nat,
    port: nat,
    processes: Seq<ProcessRecord>,
) -> (u32, Seq<char>) {
    let i = first_index(rows, |line: Seq<char>| is_row_of(line, addr, port));
    if i < rows.len() {
        socket_owner(processes, fields(rows[i])[9])
    } else {
        (0, unknown_name())
    }
}

/// What one line of a TCP table yields. A line with fewer than four
/// fields, or whose fourth field is not the state code of an
/// established connection, yields nothing. Any other line yields a
/// record of a connection that was seen once, at `now`, with the
/// endpoints that its second and third field denote and the owner that
/// `connection_owner` finds, or the error of the first endpoint that is
/// malformed.
pub open spec fn parsed_line(
    line: Seq<char>,
    rows: Seq<Seq<char>>,
    processes: Seq<ProcessRecord>,
    now: u64,
) -> Result<Option<ConnectionRecord>, ParseError> {
    let f = fields(line);
    if f.len() < 4 || f[3] != established() {
        Ok(None)
    } else {
        match endpoint(f[1]) {
            Err(e) => Err(e),
            Ok(local) => match endpoint(f[2]) {
                Err(e) => Err(e),
                Ok(remote) => {
                    let owner = connection_owner(rows, local.0, local.1, processes);
                    Ok(
                        Some(
                            ConnectionRecord {
                                local_addr: local.0 as u32,
                                remote_addr: remote.0 as u32,
                                local_port: local.1 as u16,
                                remote_port: remote.1 as u16,
                                pid: owner.0,
                                process_name: owner.1,
                                first_seen: now,
                                last_seen: now,
                                connection_count: 1,
                                is_suspicious: false,
                            },
                        ),
                    )
                },
            },
        }
    }
}

/// The value of what reading a line gave.
pub open spec fn line_result(r: Result<Option<ConnectionInfo>, ParseError>) -> Result<
    Option<ConnectionRecord>,
    ParseError,
> {
    match r {
        Ok(Some(c)) => Ok(Some(c@)),
        Ok(None) => Ok(None),
        Err(e) => Err(e),
    }
}

/// The records that the lines of `lines` yield, in order. A line that
/// yields nothing or is malformed is passed over.
pub open spec fn scanned(
    lines: Seq<Seq<char>>,
    rows: Seq<Seq<char>>,
    processes: Seq<ProcessRecord>,
    now: u64,
) -> Seq<ConnectionRecord>
    decreases lines.len(),
{
    if lines.len() == 0 {
        Seq::<ConnectionRecord>::empty()
    } else {
        let before = scanned(lines.drop_last(), rows, processes, now);
        match parsed_line(lines.last(), rows, processes, now) {
            Ok(Some(record)) => before.push(record),
            _ => before,
        }
    }
}

/// A line with fewer than four fields, and a line whose state is not
/// that of an established connection, yields nothing, and a scan passes
/// over it.
pub proof fn lemma_line_passed_over(
    lines: Seq<Seq<char>>,
    line: Seq<char>,
    rows: Seq<Seq<char>>,
    processes: Seq<ProcessRecord>,
    now: u64,
)
    requires
        fields(line).len() < 4 || fields(line)[3] != established(),
    ensures
        parsed_line(line, rows, processes, now) == Ok::<Option<ConnectionRecord>, ParseError>(None),
        scanned(lines.push(line), rows, processes, now) == scanned(lines, rows, processes, now),
{
    assert(lines.push(line).drop_last() =~= lines);
}

/// A malformed line does not stop a scan: it is passed over like a line
/// that yields nothing.
pub proof fn lemma_malformed_line_passed_over(
    lines: Seq<Seq<char>>,
    line: Seq<char>,
    rows: Seq<Seq<char>>,
    processes: Seq<ProcessRecord>,
    now: u64,
)
    requires
        parsed_line(line, rows, processes, now) is Err,
    ensures
        scanned(lines.push(line), rows, processes, now) == scanned(lines, rows, processes, now),
{
    assert(lines.push(line).drop_last() =~= lines);
}

impl ReverseShellDetector {
    /// The lines of a table after its header line.
    pub(crate) fn data_lines_of<'a>(table: &'a [char]) -> (lines: Vec<&'a [char]>)
        ensures
            views(lines@) == data_lines(table@),
    {
        let all = split_text(table, Delimiter::Char('\n'));
        let mut lines: Vec<&'a [char]> = Vec::new();
        let mut i: usize = 1;
        proof {
            super::text::lemma_split_parts(table@, Delimiter::Char('\n'));
            assert(views(lines@) =~= views(all@).subrange(1, 1));
        }
        while i < all.len()
            invariant
                1 <= i <= all@.len(),
                views(lines@) == views(all@).subrange(1, i as int),
            decreases all@.len() - i,
        {
            let ghost before = views(lines@);
            lines.push(all[i]);
            proof {
                assert(views(lines@) =~= before.push(all@[i as int]@));
                assert(before.push(all@[i as int]@) =~= views(all@).subrange(1, i + 1));
            }
            i += 1;
        }
        proof {
            assert(views(all@).subrange(1, all@.len() as int) =~= views(all@).skip(1));
        }
        lines
    }

    /// Finds the process that owns the socket with the given local
    /// endpoint. `tcp_table` is the text of the kernel's IPv4 table: the
    /// inode of the socket is looked up there.
    pub fn get_process_info_for_connection(
        tcp_table: &str,
        local_addr: u32,
        local_port: u16,
        processes: &Vec<ProcessEntry>,
    ) -> (owner: (u32, String))
        ensures
            (owner.0, owner.1@) == connection_owner(
                data_lines(tcp_table@),
                local_addr as nat,
                local_port as nat,
                process_records(processes@),
            ),
    {
        let table = chars_of(tcp_table);
        let rows = Self::data_lines_of(table.as_slice());
        Self::owner_of(&rows, local_addr, local_port, processes)
    }

    /// `get_process_info_for_connection` on the lines of the table.
    pub(crate) fn owner_of(
        rows: &Vec<&[char]>,
        local_addr: u32,
        local_port: u16,
        processes: &Vec<ProcessEntry>,
    ) -> (owner: (u32, String))
        ensures
            (owner.0, owner.1@) == connection_owner(
                views(rows@),
                local_addr as nat,
                local_port as nat,
                process_records(processes@),
            ),
    {
        let ghost wanted = |line: Seq<char>| is_row_of(line, local_addr as nat, local_port as nat);
        let mut i: usize = 0;
        while i < rows.len()
            invariant
                0 <= i <= rows@.len(),
                wanted == (|line: Seq<char>|
                    is_row_of(line, local_addr as nat, local_port as nat)),
                forall|j: int| 0 <= j < i ==> !wanted(views(rows@)[j]),
            decreases rows@.len() - i,
        {
            let parts = split_fields(rows[i]);
            proof {
                assert(views(rows@)[i as int] == rows@[i as int]@);
            }
            if parts.len() >= 10 {
                proof {
                    assert(views(parts@)[1] == parts@[1]@);
                    assert(views(parts@)[9] == parts@[9]@);
                }
                match Self::endpoint_of(parts[1]) {
                    Ok((addr, port)) => {
                        if addr == local_addr && port == local_port {
                            proof {
                                assert(wanted(views(rows@)[i as int]));
                                lemma_first_index(views(rows@), wanted, i as int);
                            }
                            return Self::owner_of_inode(parts[9], processes);
                        }
                    },
                    Err(_) => {},
                }
            }
            i += 1;
        }
        proof {
            lemma_first_index(views(rows@), wanted, i as int);
        }
        (0, String::from_str("unknown"))
    }

    /// Reads one line of the kernel's IPv4 table. `tcp_table` is the
    /// text of that table, in which the owner of the connection is
    /// looked up, `processes` are the processes among which it is
    /// sought, and `now` is the time of the observation.
    pub fn parse_tcp_line(
        line: &str,
        tcp_table: &str,
        processes: &Vec<ProcessEntry>,
        now: u64,
    ) -> (r: Result<Option<ConnectionInfo>, ParseError>)
        ensures
            line_result(r) == parsed_line(
                line@,
                data_lines(tcp_table@),
                process_records(processes@),
                now,
            ),
    {
        let chars = chars_of(line);
        let table = chars_of(tcp_table);
        let rows = Self::data_lines_of(table.as_slice());
        Self::parse_line(chars.as_slice(), &rows, processes, now)
    }

    /// Reads one line of the kernel's IPv6 table, which has the form of
    /// the IPv4 table. A line whose addresses do not fit 32 bits is
    /// malformed.
    pub fn parse_tcp6_line(
        line: &str,
        tcp_table: &str,
        processes: &Vec<ProcessEntry>,
        now: u64,
    ) -> (r: Result<Option<ConnectionInfo>, ParseError>)
        ensures
            line_result(r) == parsed_line(
                line@,
                data_lines(tcp_table@),
                process_records(processes@),
                now,
            ),
    {
        Self::parse_tcp_line(line, tcp_table, processes, now)
    }

    /// `parse_tcp_line` on characters and on the lines of the table.
    pub(crate) fn parse_line(
        line: &[char],
        rows: &Vec<&[char]>,
        processes: &Vec<ProcessEntry>,
        now: u64,
    ) -> (r: Result<Option<ConnectionInfo>, ParseError>)
        ensures
            line_result(r) == parsed_line(line@, views(rows@), process_records(processes@), now),
    {
        let parts = split_fields(line);
        if parts.len() < 4 {
            return Ok(None);
        }
        proof {
            assert(views(parts@)[1] == parts@[1]@);
            assert(views(parts@)[2] == parts@[2]@);
            assert(views(parts@)[3] == parts@[3]@);
        }
        let state = chars_of("01");
        if !text_equal(parts[3], state.as_slice()) {
            return Ok(None);
        }
        let (local_addr, local_port) = match Self::endpoint_of(parts[1]) {
            Ok(pair) => pair,
            Err(e) => {
                return Err(e);
            },
        };
        let (remote_addr, remote_port) = match Self::endpoint_of(parts[2]) {
            Ok(pair) => pair,
            Err(e) => {
                return Err(e);
            },
        };
        let (pid, process_name) = Self::owner_of(rows, local_addr, local_port, processes);
        Ok(
            Some(
                ConnectionInfo {
                    local_addr,
                    remote_addr,
                    local_port,
                    remote_port,
                    pid,
                    process_name,
                    first_seen: now,
                    last_seen: now,
                    connection_count: 1,
                    is_suspicious: false,
                },
            ),
        )
    }

    /// Puts the records that the lines of `lines` yield into the
    /// connection table.
    fn scan_lines(
        &mut self,
        lines: &Vec<&[char]>,
        rows: &Vec<&[char]>,
        processes: &Vec<ProcessEntry>,
        now: u64,
    )
        ensures
            final(self).policy() == old(self).policy(),
            final(self).events() == old(self).events(),
            final(self).connections() == upserted_all(
                old(self).connections(),
                scanned(views(lines@), views(rows@), process_records(processes@), now),
                old(self).policy(),
            ),
    {
        let mut i: usize = 0;
        while i < lines.len()
            invariant
                0 <= i <= lines@.len(),
                self.policy() == old(self).policy(),
                self.events() == old(self).events(),
                self.connections() == upserted_all(
                    old(self).connections(),
                    scanned(
                        views(lines@).take(i as int),
                        views(rows@),
                        process_records(processes@),
                        now,
                    ),
                    old(self).policy(),
                ),
            decreases lines@.len() - i,
        {
            proof {
                let next = views(lines@).take(i + 1);
                assert(next.drop_last() =~= views(lines@).take(i as int));
                assert(next.last() == lines@[i as int]@);
            }
            match Self::parse_line(lines[i], rows, processes, now) {
                Ok(Some(record)) => {
                    let ghost before = scanned(
                        views(lines@).take(i as int),
                        views(rows@),
                        process_records(processes@),
                        now,
                    );
                    proof {
                        assert(before.push(record@).drop_last() =~= before);
                    }
                    self.upsert(record);
                },
                _ => {},
            }
            i += 1;
        }
        proof {
            assert(views(lines@).take(i as int) =~= views(lines@));
        }
    }

    /// One cycle of the connection scanner. `tcp_content` and
    /// `tcp6_content` are the texts of the kernel's IPv4 and IPv6 TCP
    /// tables. Every line after the header that describes an
    /// established connection is read, its owner is sought among
    /// `processes`, and the record is put into the connection table;
    /// lines of the IPv4 table come first. A malformed line is passed
    /// over and the scan goes on.
    pub fn scan_network_connections(
        &mut self,
        tcp_content: &str,
        tcp6_content: &str,
        processes: &Vec<ProcessEntry>,
        now: u64,
    )
        ensures
            final(self).policy() == old(self).policy(),
            final(self).events() == old(self).events(),
            final(self).connections() == upserted_all(
                old(self).connections(),
                scanned(
                    data_lines(tcp_content@),
                    data_lines(tcp_content@),
                    process_records(processes@),
                    now,
                ) + scanned(
                    data_lines(tcp6_content@),
                    data_lines(tcp_content@),
                    process_records(processes@),
                    now,
                ),
                old(self).policy(),
            ),
    {
        let table = chars_of(tcp_content);
        let table6 = chars_of(tcp6_content);
        let rows = Self::data_lines_of(table.as_slice());
        let rows6 = Self::data_lines_of(table6.as_slice());
        self.scan_lines(&rows, &rows, processes, now);
        self.scan_lines(&rows6, &rows, processes, now);
        proof {
            lemma_upserted_all_concat(
                old(self).connections(),
                scanned(
                    data_lines(tcp_content@),
                    data_lines(tcp_content@),
                    process_records(processes@),
                    now,
                ),
                scanned(
                    data_lines(tcp6_content@),
                    data_lines(tcp_content@),
                    process_records(processes@),
                    now,
                ),
                old(self).policy(),
            );
        }
    }
}

} // verus!
