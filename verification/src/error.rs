//! The errors of a Vault operation.
//!
//! Errors raised by I/O, HTTP or JSON handling outside the library are
//! carried as the text of the underlying error.

use vstd::prelude::*;

verus! {

/// Errors that can occur during a Vault operation.
#[derive(Debug)]
pub enum VaultError {
    /// An I/O error, by its text.
    Io(String),
    /// A failed HTTP request, by its text.
    Http(String),
    /// A JSON (de)serialization failure, by its text.
    Json(String),
    /// `package.json` could not be read or understood.
    PackageJson(String),
    /// A dependency could not be resolved.
    Resolution { name: String, reason: String },
    /// Downloaded bytes do not match the registry's integrity metadata.
    Integrity { name: String, version: String, expected: String, actual: String },
    /// The security policy refused a package.
    SecurityBlock { name: String, version: String, reason: String },
    /// Invalid configuration or a misuse of the command line.
    Config(String),
    /// One or more packages were blocked by the audit.
    Blocked(String),
    /// Any other error, by its text.
    Other(String),
}

/// The text of an error, as it is displayed.
pub open spec fn error_text(e: VaultError) -> Seq<char> {
    match e {
        VaultError::Io(m) => "I/O error: "@ + m@,
        VaultError::Http(m) => "HTTP request failed: "@ + m@,
        VaultError::Json(m) => "JSON (de)serialization failed: "@ + m@,
        VaultError::PackageJson(m) => "could not parse package.json: "@ + m@,
        VaultError::Resolution { name, reason } => "could not resolve `"@ + name@ + "`: "@ + reason@,
        VaultError::Integrity { name, version, expected, actual } => "integrity check failed for "@
            + name@ + "@"@ + version@ + ": expected "@ + expected@ + ", got "@ + actual@,
        VaultError::SecurityBlock { name, version, reason } => "security policy blocked "@ + name@
            + "@"@ + version@ + ": "@ + reason@,
        VaultError::Config(m) => "config error: "@ + m@,
        VaultError::Blocked(m) => m@,
        VaultError::Other(m) => m@,
    }
}

impl VaultError {
    /// The text of the error, as it is displayed.
    pub fn message(&self) -> (s: String)
        ensures
            s@ == error_text(*self),
    {
        let mut s = String::new();
        match self {
            VaultError::Io(m) => {
                s.append("I/O error: ");
                s.append(m.as_str());
            },
            VaultError::Http(m) => {
                s.append("HTTP request failed: ");
                s.append(m.as_str());
            },
            VaultError::Json(m) => {
                s.append("JSON (de)serialization failed: ");
                s.append(m.as_str());
            },
            VaultError::PackageJson(m) => {
                s.append("could not parse package.json: ");
                s.append(m.as_str());
            },
            VaultError::Resolution { name, reason } => {
                s.append("could not resolve `");
                s.append(name.as_str());
                s.append("`: ");
                s.append(reason.as_str());
            },
            VaultError::Integrity { name, version, expected, actual } => {
                s.append("integrity check failed for ");
                s.append(name.as_str());
                s.append("@");
                s.append(version.as_str());
                s.append(": expected ");
                s.append(expected.as_str());
                s.append(", got ");
                s.append(actual.as_str());
            },
            VaultError::SecurityBlock { name, version, reason } => {
                s.append("security policy blocked ");
                s.append(name.as_str());
                s.append("@");
                s.append(version.as_str());
                s.append(": ");
                s.append(reason.as_str());
            },
            VaultError::Config(m) => {
                s.append("config error: ");
                s.append(m.as_str());
            },
            VaultError::Blocked(m) => {
                s.append(m.as_str());
            },
            VaultError::Other(m) => {
                s.append(m.as_str());
            },
        }
        s
    }
}

} // verus!
