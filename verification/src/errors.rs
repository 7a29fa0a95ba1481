//! The error kinds that the library's operations report.

use vstd::prelude::*;

verus! {

/// Every failure the library can report, each kind carrying the offending
/// name, version, or message so a caller can act on it without re-running
/// the request.
#[derive(Debug)]
pub enum Error {
    /// The requested package does not exist.
    CrateNotFound(String),
    /// The requested version string does not match any known version.
    VersionNotFound(String),
    /// No version of the package qualifies (all yanked or pre-release).
    NoVersions(String),
    /// A version string was rejected before any lookup.
    InvalidVersion(String),
    /// A version string does not parse.
    InvalidVersionFormat(String),
    /// A caller-supplied identifier failed validation.
    InvalidInput(String),
    /// A caller-supplied path failed validation.
    InvalidPath(String),
    /// An external process exited non-zero or could not be started.
    CommandFailed(String),
    /// A document or response could not be decoded.
    ParseError(String),
    /// Documentation generation ran but produced no usable output.
    DocGenFailed(String),
    /// The file system could not be accessed.
    IoError(String),
    /// A JSON value could not be decoded.
    JsonError(String),
}

impl Error {
    /// The message carried by the error, whichever kind it is.
    pub fn message(&self) -> (r: &String)
        ensures
            r@ == self.message_view(),
    {
        match self {
            Error::CrateNotFound(m) => m,
            Error::VersionNotFound(m) => m,
            Error::NoVersions(m) => m,
            Error::InvalidVersion(m) => m,
            Error::InvalidVersionFormat(m) => m,
            Error::InvalidInput(m) => m,
            Error::InvalidPath(m) => m,
            Error::CommandFailed(m) => m,
            Error::ParseError(m) => m,
            Error::DocGenFailed(m) => m,
            Error::IoError(m) => m,
            Error::JsonError(m) => m,
        }
    }

    /// The message as a sequence of characters.
    pub open spec fn message_view(self) -> Seq<char> {
        match self {
            Error::CrateNotFound(m) => m@,
            Error::VersionNotFound(m) => m@,
            Error::NoVersions(m) => m@,
            Error::InvalidVersion(m) => m@,
            Error::InvalidVersionFormat(m) => m@,
            Error::InvalidInput(m) => m@,
            Error::InvalidPath(m) => m@,
            Error::CommandFailed(m) => m@,
            Error::ParseError(m) => m@,
            Error::DocGenFailed(m) => m@,
            Error::IoError(m) => m@,
            Error::JsonError(m) => m@,
        }
    }
}

} // verus!
