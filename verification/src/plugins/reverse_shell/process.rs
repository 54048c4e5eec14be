//! Processes: which of them owns a socket, and what they are called.

use super::detector::ReverseShellDetector;
use super::find::{first_index, lemma_first_index};
use super::numeral::{parse_unsigned, unsigned_value};
use super::text::{chars_of, contains_text, lead_len, lemma_lead_len, text_contains, Delimiter};
use vstd::prelude::*;
use vstd::string::{StrSliceExecFns, StringExecFns};

verus! {

/// What the caller read of one process: its id, its command line where
/// that could be read, and the targets of those of its file descriptors
/// that could be read.
#[derive(Debug)]
pub struct ProcessEntry {
    pub pid: u32,
    pub cmdline: Option<String>,
    pub fd_targets: Vec<String>,
}

/// The value of a `ProcessEntry`.
pub struct ProcessRecord {
    pub pid: u32,
    pub cmdline: Option<Seq<char>>,
    pub fd_targets: Seq<Seq<char>>,
}

impl View for ProcessEntry {
    type V = ProcessRecord;

    open spec fn view(&self) -> ProcessRecord {
        ProcessRecord {
            pid: self.pid,
            cmdline: match self.cmdline {
                Some(text) => Some(text@),
                None => None,
            },
            fd_targets: self.fd_targets@.map_values(|t: String| t@),
        }
    }
}

/// The values of a list of processes.
pub open spec fn process_records(list: Seq<ProcessEntry>) -> Seq<ProcessRecord> {
    list.map_values(|p: ProcessEntry| p@)
}

/// The contents of a list of strings.
pub open spec fn string_views(list: Seq<String>) -> Seq<Seq<char>> {
    list.map_values(|t: String| t@)
}

/// The name that stands for a process that could not be found.
pub open spec fn unknown_name() -> Seq<char> {
    "unknown"@
}

/// The command name of a command line: what stands before its first NUL
/// character, the whole of it where it holds none.
pub open spec fn command_name(cmdline: Seq<char>) -> Seq<char> {
    cmdline.take(lead_len(cmdline, Delimiter::Char('\0')) as int)
}

/// The target of a file descriptor that is the socket with the given
/// inode.
pub open spec fn socket_link(inode: Seq<char>) -> Seq<char> {
    "socket:["@ + inode + "]"@
}

/// Whether a process owns the socket with the given inode: its command
/// line could be read, and the reference to that socket stands in the
/// target of one of its file descriptors.
pub open spec fn owns_socket(process: ProcessRecord, inode: Seq<char>) -> bool {
    &&& process.cmdline is Some
    &&& exists|j: int|
        0 <= j < process.fd_targets.len() && contains_text(
            #[trigger] process.fd_targets[j],
            socket_link(inode),
        )
}

/// The id and the command name of the first process of the list that
/// owns the socket with the given inode; `(0, "unknown")` where none
/// does.
pub open spec fn socket_owner(list: Seq<ProcessRecord>, inode: Seq<char>) -> (u32, Seq<char>) {
    let i = first_index(list, |p: ProcessRecord| owns_socket(p, inode));
    if i < list.len() {
        (list[i].pid, command_name(list[i].cmdline.unwrap()))
    } else {
        (0, unknown_name())
    }
}

/// Whether a process is listed among the running ones: its command line
/// could be read, and its command name is neither empty nor `unknown`.
pub open spec fn is_listed(process: ProcessRecord) -> bool {
    &&& process.cmdline matches Some(text)
    &&& command_name(text).len() > 0
    &&& command_name(text) != unknown_name()
}

/// The command names of the listed processes, in the order of the list.
pub open spec fn listed_names(list: Seq<ProcessRecord>) -> Seq<Seq<char>> {
    list.filter(|p: ProcessRecord| is_listed(p)).map_values(
        |p: ProcessRecord| command_name(p.cmdline.unwrap()),
    )
}

impl ReverseShellDetector {
    /// Reads the name of a process directory as a process id: an
    /// unsigned decimal number that fits 32 bits.
    pub fn parse_pid(name: &str) -> (pid: Option<u32>)
        ensures
            pid matches Some(v) ==> unsigned_value(name@, u32::MAX as nat) == Some(v as nat),
            pid is None ==> unsigned_value(name@, u32::MAX as nat) is None,
    {
        let chars = chars_of(name);
        match parse_unsigned(chars.as_slice(), 0xFFFF_FFFF) {
            Some(v) => Some(v as u32),
            None => None,
        }
    }

    /// The command name of a command line.
    pub fn command_name_of(cmdline: &str) -> (name: String)
        ensures
            name@ == command_name(cmdline@),
    {
        let chars = chars_of(cmdline);
        let n = chars.len();
        let mut k: usize = 0;
        while k < n && chars[k] != '\0'
            invariant
                n == chars@.len(),
                0 <= k <= n,
                forall|j: int| 0 <= j < k ==> chars@[j] != '\0',
            decreases n - k,
        {
            k += 1;
        }
        proof {
            lemma_lead_len(chars@, Delimiter::Char('\0'), k as int);
        }
        String::from_str(cmdline.substring_char(0, k))
    }

    /// Tests whether a process owns the socket whose reference is
    /// `link`.
    fn holds_link(process: &ProcessEntry, link: &[char]) -> (b: bool)
        ensures
            b == exists|j: int|
                0 <= j < process@.fd_targets.len() && contains_text(
                    #[trigger] process@.fd_targets[j],
                    link@,
                ),
    {
        let mut j: usize = 0;
        while j < process.fd_targets.len()
            invariant
                0 <= j <= process.fd_targets@.len(),
                forall|i: int| 0 <= i < j ==> !contains_text(#[trigger] process@.fd_targets[i], link@),
            decreases process.fd_targets@.len() - j,
        {
            let target = chars_of(process.fd_targets[j].as_str());
            if text_contains(target.as_slice(), link) {
                proof {
                    assert(contains_text(process@.fd_targets[j as int], link@));
                }
                return true;
            }
            j += 1;
        }
        false
    }

    /// Finds the process that owns the socket with the given inode, and
    /// gives its id and its command name; `(0, "unknown")` where no
    /// process of the list owns it.
    pub fn get_process_by_inode(inode: &str, processes: &Vec<ProcessEntry>) -> (owner: (
        u32,
        String,
    ))
        ensures
            (owner.0, owner.1@) == socket_owner(process_records(processes@), inode@),
    {
        let chars = chars_of(inode);
        Self::owner_of_inode(chars.as_slice(), processes)
    }

    /// `get_process_by_inode` on characters.
    pub(crate) fn owner_of_inode(inode: &[char], processes: &Vec<ProcessEntry>) -> (owner: (
        u32,
        String,
    ))
        ensures
            (owner.0, owner.1@) == socket_owner(process_records(processes@), inode@),
    {
        let mut link = chars_of("socket:[");
        link.extend_from_slice(inode);
        link.push(']');
        proof {
            reveal_strlit("]");
            assert(link@ =~= socket_link(inode@));
        }
        let ghost wanted = |p: ProcessRecord| owns_socket(p, inode@);
        let ghost list = process_records(processes@);
        let mut i: usize = 0;
        while i < processes.len()
            invariant
                0 <= i <= processes@.len(),
                link@ == socket_link(inode@),
                list == process_records(processes@),
                wanted == (|p: ProcessRecord| owns_socket(p, inode@)),
                forall|j: int| 0 <= j < i ==> !wanted(list[j]),
            decreases processes@.len() - i,
        {
            let process = &processes[i];
            match &process.cmdline {
                Some(cmdline) => {
                    if Self::holds_link(process, link.as_slice()) {
                        proof {
                            assert(wanted(list[i as int]));
                            lemma_first_index(list, wanted, i as int);
                        }
                        return (process.pid, Self::command_name_of(cmdline.as_str()));
                    }
                },
                None => {},
            }
            i += 1;
        }
        proof {
            lemma_first_index(list, wanted, i as int);
        }
        (0, String::from_str("unknown"))
    }

    /// The command names of the running processes: of every process
    /// whose command line could be read, but for those whose command
    /// name is empty or `unknown`.
    pub fn get_current_processes(processes: &Vec<ProcessEntry>) -> (names: Vec<String>)
        ensures
            string_views(names@) == listed_names(process_records(processes@)),
    {
        let mut names: Vec<String> = Vec::new();
        let unknown = chars_of("unknown");
        let ghost list = process_records(processes@);
        let ghost keep = |p: ProcessRecord| is_listed(p);
        let ghost name_of = |p: ProcessRecord| command_name(p.cmdline.unwrap());
        let mut i: usize = 0;
        while i < processes.len()
            invariant
                0 <= i <= processes@.len(),
                unknown@ == unknown_name(),
                list == process_records(processes@),
                keep == (|p: ProcessRecord| is_listed(p)),
                name_of == (|p: ProcessRecord| command_name(p.cmdline.unwrap())),
                string_views(names@) == list.take(i as int).filter(keep).map_values(name_of),
            decreases processes@.len() - i,
        {
            proof {
                let next = list.take(i + 1);
                assert(next.drop_last() =~= list.take(i as int));
                assert(next.last() == processes@[i as int]@);
                reveal(Seq::filter);
            }
            match &processes[i].cmdline {
                Some(cmdline) => {
                    let name = Self::command_name_of(cmdline.as_str());
                    let chars = chars_of(name.as_str());
                    if chars.len() > 0 && !super::text::text_equal(
                        chars.as_slice(),
                        unknown.as_slice(),
                    ) {
                        let ghost before = string_views(names@);
                        let ghost kept = list.take(i as int).filter(keep);
                        names.push(name);
                        proof {
                            assert(string_views(names@) =~= before.push(name@));
                            assert(kept.push(list[i as int]).map_values(name_of) =~= kept.map_values(
                                name_of,
                            ).push(name@));
                        }
                    }
                },
                None => {},
            }
            i += 1;
        }
        proof {
            assert(list.take(i as int) =~= list);
        }
        names
    }
}

} // verus!
