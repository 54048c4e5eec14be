//! What the caller that runs the detector needs to know: where the
//! kernel probe is attached, how a start ends, and how often each cycle
//! runs.

use super::detector::ReverseShellDetector;
use vstd::prelude::*;

verus! {

/// The time between two cycles of the kernel-event monitor, in
/// milliseconds.
pub const KERNEL_EVENT_PERIOD_MILLIS: u64 = 100;

/// The time between two cycles of the connection scanner, in seconds.
pub const CONNECTION_SCAN_PERIOD_SECS: u64 = 5;

/// The time between two cycles of the process monitor, in seconds.
pub const PROCESS_SCAN_PERIOD_SECS: u64 = 10;

/// How the kernel probe takes part in detection.
#[derive(Clone, Copy, Debug, PartialEq, Eq, Structural)]
pub enum Capability {
    /// The probe is attached to its hook points.
    Active,
    /// There is no probe; detection rests on what is sampled from user
    /// space.
    Simulated,
}

/// A place in the kernel at which the probe observes.
#[derive(Clone, Copy, Debug, PartialEq, Eq, Structural)]
pub enum HookPoint {
    /// The ingress path of the network interface.
    NetworkIngress,
    /// The entry of the system call that executes a program.
    ProcessExec,
    /// The entry of the system call that creates a socket.
    SocketCreate,
    /// The entry of the system call that connects a socket.
    Connect,
}

impl HookPoint {
    /// The name of the probe's program for a hook point.
    pub open spec fn program_name(self) -> Seq<char> {
        match self {
            HookPoint::NetworkIngress => "reverse_shell_detector"@,
            HookPoint::ProcessExec => "trace_execve"@,
            HookPoint::SocketCreate => "trace_socket"@,
            HookPoint::Connect => "trace_connect"@,
        }
    }

    /// The name of the system-call tracepoint of a hook point; `None`
    /// for network ingress, which is no tracepoint.
    pub open spec fn tracepoint_name(self) -> Option<Seq<char>> {
        match self {
            HookPoint::NetworkIngress => None,
            HookPoint::ProcessExec => Some("sys_enter_execve"@),
            HookPoint::SocketCreate => Some("sys_enter_socket"@),
            HookPoint::Connect => Some("sys_enter_connect"@),
        }
    }

    /// The name of the probe's program for this hook point.
    pub fn program(&self) -> (name: &'static str)
        ensures
            name@ == self.program_name(),
    {
        match self {
            HookPoint::NetworkIngress => "reverse_shell_detector",
            HookPoint::ProcessExec => "trace_execve",
            HookPoint::SocketCreate => "trace_socket",
            HookPoint::Connect => "trace_connect",
        }
    }

    /// The name of the system-call tracepoint of this hook point, if it
    /// is one.
    pub fn tracepoint(&self) -> (name: Option<&'static str>)
        ensures
            name matches Some(text) ==> self.tracepoint_name() == Some(text@),
            name is None ==> self.tracepoint_name() is None,
    {
        match self {
            HookPoint::NetworkIngress => None,
            HookPoint::ProcessExec => Some("sys_enter_execve"),
            HookPoint::SocketCreate => Some("sys_enter_socket"),
            HookPoint::Connect => Some("sys_enter_connect"),
        }
    }
}

/// The hook points of the probe, in the order in which they are
/// attached.
pub open spec fn hook_points() -> Seq<HookPoint> {
    seq![
        HookPoint::NetworkIngress,
        HookPoint::ProcessExec,
        HookPoint::SocketCreate,
        HookPoint::Connect,
    ]
}

/// Why the detector cannot start.
#[derive(Clone, Copy, Debug, PartialEq, Eq, Structural)]
pub enum StartupError {
    /// The platform supports kernel probes, and the probe could not be
    /// attached.
    AttachFailed,
}

/// How a start ends. Without support for kernel probes the detector
/// runs with a simulated probe, which is no error. With support the
/// probe has to be attached: a failure to do so ends the start.
pub open spec fn startup(supported: bool, attached: bool) -> Result<Capability, StartupError> {
    if !supported {
        Ok(Capability::Simulated)
    } else if attached {
        Ok(Capability::Active)
    } else {
        Err(StartupError::AttachFailed)
    }
}

impl ReverseShellDetector {
    /// The hook points at which the probe has to be attached, in order.
    pub fn hook_point_list() -> (points: Vec<HookPoint>)
        ensures
            points@ == hook_points(),
    {
        let points: Vec<HookPoint> = vec![
            HookPoint::NetworkIngress,
            HookPoint::ProcessExec,
            HookPoint::SocketCreate,
            HookPoint::Connect,
        ];
        proof {
            assert(points@ =~= hook_points());
        }
        points
    }

    /// Decides how a start ends: `supported` says whether the platform
    /// supports kernel probes, `attached` whether the probe was
    /// attached.
    pub fn startup_outcome(supported: bool, attached: bool) -> (r: Result<
        Capability,
        StartupError,
    >)
        ensures
            r == startup(supported, attached),
    {
        if !supported {
            Ok(Capability::Simulated)
        } else if attached {
            Ok(Capability::Active)
        } else {
            Err(StartupError::AttachFailed)
        }
    }
}

} // verus!
