//! Reverse-shell detection: the connection table, the scanners that fill
//! it, the heuristics, the event log and the report.

pub mod address;
pub mod connection;
pub mod detector;
pub mod event;
pub mod find;
pub mod heuristics;
pub mod monitor;
pub mod numeral;
pub mod orchestrator;
pub mod process;
pub mod report;
pub mod scanner;
pub mod text;

pub use address::ParseError;
pub use connection::{ConnectionInfo, ConnectionRecord, ConnectionTable, MergePolicy};
pub use detector::ReverseShellDetector;
pub use orchestrator::{Capability, HookPoint, StartupError};
pub use process::{ProcessEntry, ProcessRecord};
pub use event::{EventLog, EventRecord, EventType, ReverseShellEvent, Severity};
