//! The failure taxonomy and its exit policy.
//!
//! Every condition that ends a run early is named here, with the level it
//! is logged at and the status the process exits with. User-facing input
//! trouble is deliberately soft: it warns or errs in the log and still
//! exits successfully. Only an unusable configuration directory and an
//! unreadable stored log are hard failures.

use vstd::prelude::*;

verus! {

/// Why the input text could not be produced from a path argument.
#[derive(Clone, Copy, Debug, PartialEq, Eq, Structural)]
pub enum InputError {
    /// The path does not exist.
    NotFound,
    /// The path exists but is a directory or another non-file.
    NotAFile,
    /// The file's bytes are not valid text.
    UnreadableEncoding,
    /// This user may not read the file.
    PermissionDenied,
    /// Any other failure while reading.
    UnexpectedIo,
}

/// How severe a diagnostic record is.
#[derive(Clone, Copy, Debug, PartialEq, Eq, Structural)]
pub enum LogLevel {
    Warn,
    Error,
}

/// Everything that ends a run early.
#[derive(Clone, Copy, Debug, PartialEq, Eq, Structural)]
pub enum RunError {
    /// The input text could not be produced.
    Input(InputError),
    /// The count argument did not parse as a non-negative integer.
    InvalidCount,
    /// The configuration directory could not be found or created.
    ConfigDirUnavailable,
    /// The stored log exists but could not be read.
    LogUnreadable,
}

/// The status the process exits with after `e`: zero for every input
/// problem, one only for the two environment failures.
pub open spec fn spec_exit_status(e: RunError) -> int {
    match e {
        RunError::Input(_) => 0,
        RunError::InvalidCount => 0,
        RunError::ConfigDirUnavailable => 1,
        RunError::LogUnreadable => 1,
    }
}

/// The level `e` is logged at: expected misuse warns, environment and
/// unexpected I/O trouble errs.
pub open spec fn spec_log_level(e: RunError) -> LogLevel {
    match e {
        RunError::Input(InputError::NotFound) => LogLevel::Warn,
        RunError::Input(InputError::NotAFile) => LogLevel::Warn,
        RunError::Input(InputError::UnreadableEncoding) => LogLevel::Warn,
        RunError::Input(InputError::PermissionDenied) => LogLevel::Error,
        RunError::Input(InputError::UnexpectedIo) => LogLevel::Error,
        RunError::InvalidCount => LogLevel::Warn,
        RunError::ConfigDirUnavailable => LogLevel::Error,
        RunError::LogUnreadable => LogLevel::Error,
    }
}

/// The exit status for `e`.
pub fn exit_status(e: &RunError) -> (status: i32)
    ensures
        status == spec_exit_status(*e),
{
    match e {
        RunError::Input(_) => 0,
        RunError::InvalidCount => 0,
        RunError::ConfigDirUnavailable => 1,
        RunError::LogUnreadable => 1,
    }
}

/// The log level for `e`.
pub fn log_level(e: &RunError) -> (level: LogLevel)
    ensures
        level == spec_log_level(*e),
{
    match e {
        RunError::Input(InputError::NotFound) => LogLevel::Warn,
        RunError::Input(InputError::NotAFile) => LogLevel::Warn,
        RunError::Input(InputError::UnreadableEncoding) => LogLevel::Warn,
        RunError::Input(InputError::PermissionDenied) => LogLevel::Error,
        RunError::Input(InputError::UnexpectedIo) => LogLevel::Error,
        RunError::InvalidCount => LogLevel::Warn,
        RunError::ConfigDirUnavailable => LogLevel::Error,
        RunError::LogUnreadable => LogLevel::Error,
    }
}

/// Every run that a failure ends is ended softly — with a successful
/// status — unless the failure is one of the two environment ones, which
/// exit with one; and whatever warns is a soft failure.
pub proof fn lemma_soft_failures(e: RunError)
    ensures
        spec_exit_status(e) == 0 <==> !(e == RunError::ConfigDirUnavailable || e
            == RunError::LogUnreadable),
        spec_log_level(e) == LogLevel::Warn ==> spec_exit_status(e) == 0,
{
}

/// The diagnostic line for `e` about `path`, as it goes into the log.
pub fn run_error_message(e: &RunError, path: &str) -> (message: String)
    ensures
        *e == RunError::Input(InputError::NotFound) ==> message@ == "Path '"@ + path@
            + "' does not exist"@,
        *e == RunError::Input(InputError::NotAFile) ==> message@ == "Path '"@ + path@
            + "' is not a file"@,
        *e == RunError::Input(InputError::UnreadableEncoding) ==> message@ == "Path '"@ + path@
            + "' contains invalid data"@,
        *e == RunError::Input(InputError::PermissionDenied) ==> message@
            == "Missing permission to read path '"@ + path@ + "'"@,
        *e == RunError::Input(InputError::UnexpectedIo) ==> message@
            == "Failed to access path '"@ + path@ + "': unexpected error occurred"@,
        *e == RunError::InvalidCount ==> message@
            == "Expected an integer for the number of lines to show"@,
        *e == RunError::ConfigDirUnavailable ==> message@
            == "Unable to find or create a config directory"@,
        *e == RunError::LogUnreadable ==> message@ == "Unable to read logs"@,
{
    match e {
        RunError::Input(InputError::NotFound) => {
            let mut message = String::from_str("Path '");
            message.append(path);
            message.append("' does not exist");
            message
        },
        RunError::Input(InputError::NotAFile) => {
            let mut message = String::from_str("Path '");
            message.append(path);
            message.append("' is not a file");
            message
        },
        RunError::Input(InputError::UnreadableEncoding) => {
            let mut message = String::from_str("Path '");
            message.append(path);
            message.append("' contains invalid data");
            message
        },
        RunError::Input(InputError::PermissionDenied) => {
            let mut message = String::from_str("Missing permission to read path '");
            message.append(path);
            message.append("'");
            message
        },
        RunError::Input(InputError::UnexpectedIo) => {
            let mut message = String::from_str("Failed to access path '");
            message.append(path);
            message.append("': unexpected error occurred");
            message
        },
        RunError::InvalidCount => String::from_str(
            "Expected an integer for the number of lines to show",
        ),
        RunError::ConfigDirUnavailable => String::from_str(
            "Unable to find or create a config directory",
        ),
        RunError::LogUnreadable => String::from_str("Unable to read logs"),
    }
}

} // verus!
