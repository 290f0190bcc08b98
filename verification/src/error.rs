//! The kinds of failure and the exit codes that report them.
use vstd::prelude::*;

verus! {

/// The exit code of a usage mistake.
pub const EXIT_USAGE: u32 = 1;

/// The exit code that says a process could not be launched, in either phase.
pub const EXIT_LAUNCH_FAILED: u32 = 9009;

/// What can go wrong in one invocation. Every kind but `AttachFailure` ends
/// the phase in which it occurs; none is retried.
#[derive(Clone, Copy, Debug, PartialEq, Eq, Structural)]
pub enum ErrorKind {
    /// Malformed or missing arguments.
    UsageError,
    /// A leading option that the launcher does not know.
    InvalidOption,
    /// The elevation request was declined or could not be made.
    ElevationFailure,
    /// The elevated phase could not create the target process.
    ProcessCreationFailure,
    /// The console of the requesting process could not be attached.
    AttachFailure,
}

impl ErrorKind {
    /// The exit code that reports this kind: 1 for a mistake in the
    /// arguments, 9009 for a failure to launch.
    pub open spec fn exit_code_spec(self) -> u32 {
        match self {
            ErrorKind::UsageError | ErrorKind::InvalidOption => EXIT_USAGE,
            ErrorKind::ElevationFailure
            | ErrorKind::ProcessCreationFailure
            | ErrorKind::AttachFailure => EXIT_LAUNCH_FAILED,
        }
    }

    /// Whether this kind ends the phase in which it occurs. A console that
    /// could not be attached does not: the target runs without it.
    pub open spec fn is_fatal_spec(self) -> bool {
        self != ErrorKind::AttachFailure
    }

    /// Whether this kind ends the phase in which it occurs.
    pub fn is_fatal(self) -> (r: bool)
        ensures
            r == self.is_fatal_spec(),
    {
        match self {
            ErrorKind::AttachFailure => false,
            _ => true,
        }
    }

    /// The exit code that reports this kind.
    pub fn exit_code(self) -> (code: u32)
        ensures
            code == self.exit_code_spec(),
            code == EXIT_USAGE || code == EXIT_LAUNCH_FAILED,
    {
        match self {
            ErrorKind::UsageError => EXIT_USAGE,
            ErrorKind::InvalidOption => EXIT_USAGE,
            ErrorKind::ElevationFailure => EXIT_LAUNCH_FAILED,
            ErrorKind::ProcessCreationFailure => EXIT_LAUNCH_FAILED,
            ErrorKind::AttachFailure => EXIT_LAUNCH_FAILED,
        }
    }
}

} // verus!
