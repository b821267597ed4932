//! What can go wrong before the client runs.

use vstd::prelude::*;

verus! {

/// [`std::io::Error`], carried through as it came.
#[verifier::external_type_specification]
#[verifier::external_body]
pub struct ExIoError(std::io::Error);

/// The error that starting a client with its daemon ends in.
#[derive(Debug)]
pub enum Error {
    /// Could not perform basic I/O before any daemon detection/spawning. This is a fatal error.
    FatalIO,
    /// Could not fork, this is a fatal error.
    FatalFork,
    /// The status of the daemon could not be determined because of a fatal error.
    DaemonStatusUnknown,
    /// Daemon failed to start.
    ///
    /// The daemon was not running so it was spawned and failed for an unknown reason.
    DaemonFailed,
    /// Daemon failed to start.
    ///
    /// The daemon was not running so it was spawned but failed to produce initial state.
    ///
    /// The reason is stored here as a string.
    StateFailed(String),
    /// Could not connect to a running daemon.
    ///
    /// An I/O error occured.
    ConnectionError(std::io::Error),
}

/// The message of [`Error::ConnectionError`] for a cause that reads `cause`.
pub fn connection_message(cause: &str) -> (message: String)
    ensures
        message@ == "could not connect to daemon: "@ + cause@,
{
    "could not connect to daemon: ".to_owned().concat(cause)
}

/// What [`std::io::Error`] displays of itself. It depends on the system that the error came from,
/// so nothing is claimed of the text.
#[verifier::external_body]
fn io_error_text(error: &std::io::Error) -> (text: String)
{
    format!("{}", error)
}

/// Whether `error` can display itself as `cause`.
pub closed spec fn displays(error: std::io::Error, cause: Seq<char>) -> bool {
    exists|text: String| #[trigger]
        call_ensures(io_error_text, (&error,), text) && text@ == cause
}

impl Error {
    /// The message for a user.
    pub fn message(&self) -> (message: String)
        ensures
            match *self {
                Error::FatalIO => message@ == "fatal I/O error"@,
                Error::FatalFork => message@ == "fork() error"@,
                Error::DaemonStatusUnknown => message@
                    == "cannot determine spawned daemon status"@,
                Error::DaemonFailed => message@ == "daemon failed to start"@,
                Error::StateFailed(_) => message@ == "daemon failed to start"@,
                Error::ConnectionError(error) => exists|cause: Seq<char>| #[trigger]
                    displays(error, cause) && message@ == "could not connect to daemon: "@ + cause,
            },
    {
        match self {
            Error::FatalIO => "fatal I/O error".to_owned(),
            Error::FatalFork => "fork() error".to_owned(),
            Error::DaemonStatusUnknown => "cannot determine spawned daemon status".to_owned(),
            Error::DaemonFailed => "daemon failed to start".to_owned(),
            Error::StateFailed(_) => "daemon failed to start".to_owned(),
            Error::ConnectionError(error) => {
                let cause: String = io_error_text(error);
                assert(displays(*error, cause@));
                connection_message(cause.as_str())
            },
        }
    }
}

} // verus!
