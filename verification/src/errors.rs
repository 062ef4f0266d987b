//! The error taxonomy of the builder core.

use vstd::prelude::*;

verus! {

/// Everything that can go wrong in the builder core.
///
/// Validation errors are raised before any container is planned; context
/// errors while applying protocol commands; registry errors while loading
/// command definitions; runtime errors while planning or judging a
/// container run.
#[derive(Clone, Debug, PartialEq, Eq)]
pub enum Error {
    /// A command or variable name failed its validator.
    InvalidName { name: String },
    /// A `--extra-bindings` entry could not be parsed.
    InvalidBindingSpec { spec: String },
    /// A directory string could not be resolved to an absolute path.
    InvalidDirectory { reason: String, directory: String },
    /// A required environment value was missing or unusable.
    InvalidEnv { variable: String },
    /// The registry holds no command of this name.
    CommandNotFound { name: String },
    /// A command definition file could not be parsed.
    CommandParseFailure { file: String, message: String },
    /// A variable is already set and marked read-only.
    ReadOnlyViolation { name: String },
    /// The same variable was registered as a dependency twice.
    DuplicateDependency { name: String },
    /// A required executable is missing or not runnable.
    CommandNotExecutable { path: String },
    /// Root privileges could not be acquired.
    RootNeeded { message: String },
    /// The container could not be set up.
    ContainmentFailure { message: String },
    /// The contained command exited with the wrong code or on a signal.
    CommandFailed { executable: String, args: Vec<String>, message: String, status: Option<i32> },
    /// The bootstrap environment failed validation.
    RunEnvironment { message: String },
    /// A protocol line carried a verb the orchestrator does not know.
    UnknownVerb { verb: String },
    /// A protocol verb's arguments could not be parsed.
    MalformedArgs { args: String },
}

impl Error {
    /// A short, stable label for the error variant.
    pub fn kind(&self) -> (r: &'static str)
        ensures
            r@ == self.kind_spec(),
    {
        match self {
            Error::InvalidName { .. } => "invalid name",
            Error::InvalidBindingSpec { .. } => "invalid binding spec",
            Error::InvalidDirectory { .. } => "invalid directory",
            Error::InvalidEnv { .. } => "invalid environment",
            Error::CommandNotFound { .. } => "command not found",
            Error::CommandParseFailure { .. } => "command parse failure",
            Error::ReadOnlyViolation { .. } => "read-only violation",
            Error::DuplicateDependency { .. } => "duplicate dependency",
            Error::CommandNotExecutable { .. } => "command not executable",
            Error::RootNeeded { .. } => "root needed",
            Error::ContainmentFailure { .. } => "containment failure",
            Error::CommandFailed { .. } => "command failed",
            Error::RunEnvironment { .. } => "run environment",
            Error::UnknownVerb { .. } => "unknown verb",
            Error::MalformedArgs { .. } => "malformed arguments",
        }
    }

    pub open spec fn kind_spec(&self) -> Seq<char> {
        match self {
            Error::InvalidName { .. } => "invalid name"@,
            Error::InvalidBindingSpec { .. } => "invalid binding spec"@,
            Error::InvalidDirectory { .. } => "invalid directory"@,
            Error::InvalidEnv { .. } => "invalid environment"@,
            Error::CommandNotFound { .. } => "command not found"@,
            Error::CommandParseFailure { .. } => "command parse failure"@,
            Error::ReadOnlyViolation { .. } => "read-only violation"@,
            Error::DuplicateDependency { .. } => "duplicate dependency"@,
            Error::CommandNotExecutable { .. } => "command not executable"@,
            Error::RootNeeded { .. } => "root needed"@,
            Error::ContainmentFailure { .. } => "containment failure"@,
            Error::CommandFailed { .. } => "command failed"@,
            Error::RunEnvironment { .. } => "run environment"@,
            Error::UnknownVerb { .. } => "unknown verb"@,
            Error::MalformedArgs { .. } => "malformed arguments"@,
        }
    }
}

} // verus!
