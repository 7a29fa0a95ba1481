//! The pure steps of the source-acquisition pipeline: cache keys for built
//! indexes, the scratch manifest that declares the requested package as a
//! dependency, and classification of document parse failures.

use crate::errors::Error;
use vstd::prelude::*;
use vstd::string::StringExecFns;

verus! {

/// The key an index is cached under: the package name and the literal
/// version requirement, `*` standing for "any".
pub fn cache_key(name: &str, version: Option<&str>) -> (r: String)
    ensures
        r@ == name@ + ":"@ + match version {
            Some(v) => v@,
            None => "*"@,
        },
{
    match version {
        Some(v) => name.to_owned().concat(":").concat(v),
        None => name.to_owned().concat(":").concat("*"),
    }
}

/// The manifest of the disposable build directory: a package with no code
/// of its own that declares the requested package as its sole dependency
/// at the requested version.
pub fn scratch_manifest(name: &str, version: &str) -> (r: String)
    ensures
        r@ == "[package]\nname = \"temp-workspace\"\nversion = \"0.1.0\"\nedition = \"2024\"\n\n[dependencies]\n"@
            + name@ + " = \""@ + version@ + "\"\n"@,
{
    String::from_str(
        "[package]\nname = \"temp-workspace\"\nversion = \"0.1.0\"\nedition = \"2024\"\n\n[dependencies]\n",
    ).concat(name).concat(" = \"").concat(version).concat("\"\n")
}

/// The message of a format-version mismatch, naming the expected and the
/// found version so the report is actionable.
pub open spec fn mismatch_message(expected: int, found: int) -> Seq<char> {
    "interface document format version mismatch: expected "@ + crate::strutil::dec_spec(expected)
        + ", found "@ + crate::strutil::dec_spec(found)
}

/// Builds the format-version-mismatch error, naming both versions.
pub fn format_mismatch_error(expected: u64, found: u64) -> (r: Error)
    ensures
        r is ParseError,
        r.message_view() == mismatch_message(expected as int, found as int),
{
    Error::ParseError(
        String::from_str("interface document format version mismatch: expected ").concat(
            crate::strutil::u64_to_dec(expected).as_str(),
        ).concat(", found ").concat(crate::strutil::u64_to_dec(found).as_str()),
    )
}

/// Classifies a document that failed to decode: a declared format version
/// different from the expected one is the distinct, actionable
/// format-mismatch error, naming both versions; anything else leaves the
/// original failure in force.
pub fn classify_parse_failure(found_version: Option<u64>, expected: u32) -> (r: Option<Error>)
    ensures
        match r {
            Some(e) => found_version matches Some(v) && v != expected as u64 && e is ParseError
                && e.message_view() == mismatch_message(expected as int, v as int),
            None => match found_version {
                Some(v) => v == expected as u64,
                None => true,
            },
        },
{
    match found_version {
        Some(v) => {
            if v != expected as u64 {
                Some(format_mismatch_error(expected as u64, v))
            } else {
                None
            }
        },
        None => None,
    }
}

/// The workspace-metadata provider. Reading the metadata itself runs an
/// external command and lives with the callers that do so; the provider
/// carries no state of its own.
pub struct Metadata {
}

impl Metadata {
    /// A metadata provider.
    pub fn new() -> (r: Metadata)
        ensures
            r == (Metadata {  }),
    {
        Metadata {  }
    }
}

impl core::default::Default for Metadata {
    /// A metadata provider.
    fn default() -> (r: Metadata)
        ensures
            r == (Metadata {  }),
    {
        Metadata::new()
    }
}

} // verus!
