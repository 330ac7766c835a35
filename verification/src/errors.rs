//! The error kinds that library operations report.

use vstd::prelude::*;

verus! {

/// Everything that can go wrong while loading or saving the registry or
/// while talking to a remote host.
#[derive(Clone, Copy, Debug, PartialEq, Eq, Structural)]
pub enum DevboxError {
    /// A local file could not be read or written.
    IOError,
    /// The persisted registry file exists but is not a valid document.
    DataCorruption,
    /// A remote command (run over SSH) exited with a non-zero status.
    RemoteCommandError,
    /// A remote query succeeded but produced an empty result where a value
    /// was required.
    NotFound,
}

impl DevboxError {
    /// A fixed one-line description of the error, for reporting on stderr.
    pub fn message(&self) -> (r: &'static str)
        ensures
            self is IOError ==> r@ == "local file read or write failed"@,
            self is DataCorruption ==> r@ == "stored registry file is not valid"@,
            self is RemoteCommandError ==> r@ == "remote command failed over SSH"@,
            self is NotFound ==> r@ == "expected value was empty"@,
    {
        match self {
            DevboxError::IOError => "local file read or write failed",
            DevboxError::DataCorruption => "stored registry file is not valid",
            DevboxError::RemoteCommandError => "remote command failed over SSH",
            DevboxError::NotFound => "expected value was empty",
        }
    }
}

} // verus!
