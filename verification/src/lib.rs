use vstd::prelude::*;
use vstd::string::StringExecFns;

pub mod text;
pub mod progress;
pub mod mods;
pub mod db;
pub mod toggle;
pub mod validate;
pub mod busy;
pub mod logs;
pub mod updates;
pub mod install;
pub mod search;

verus! {

/// Error taxonomy for the engine.
///
/// Per-entry failures (parse errors, per-mod install failures) are carried in
/// values and never abort a batch; these variants are for the failures a
/// single operation reports to its caller.
#[derive(Debug)]
pub enum Error {
    /// A unique name or a file the operation needs is absent.
    NotFound(String),
    /// A mod has neither a live configuration nor a default template to
    /// materialize one from, so its enabled state cannot be persisted.
    MissingDefaultConfig(String),
    /// A manifest, configuration, or archive could not be parsed.
    MalformedData(String),
    /// A registry fetch or archive download failed.
    NetworkFailure(String),
    /// A permissions, disk-space, or missing-directory failure.
    FilesystemFailure(String),
    /// An operation was refused because its target is already busy.
    AlreadyInProgress(String),
}

impl Error {
    /// A short human-readable description; the payload names the subject.
    pub fn message(&self) -> (r: String)
        ensures
            r@ == self.prefix() + self.subject(),
    {
        let prefix: &str = match self {
            Error::NotFound(_) => "not found: ",
            Error::MissingDefaultConfig(_) => "no default configuration available: ",
            Error::MalformedData(_) => "malformed data: ",
            Error::NetworkFailure(_) => "network failure: ",
            Error::FilesystemFailure(_) => "filesystem failure: ",
            Error::AlreadyInProgress(_) => "operation already in progress: ",
        };
        let subject: &String = match self {
            Error::NotFound(s) => s,
            Error::MissingDefaultConfig(s) => s,
            Error::MalformedData(s) => s,
            Error::NetworkFailure(s) => s,
            Error::FilesystemFailure(s) => s,
            Error::AlreadyInProgress(s) => s,
        };
        let mut out = String::new();
        out.append(prefix);
        out.append(subject.as_str());
        out
    }

    /// The fixed text that `message` puts before the subject.
    pub open spec fn prefix(&self) -> Seq<char> {
        match self {
            Error::NotFound(_) => "not found: "@,
            Error::MissingDefaultConfig(_) => "no default configuration available: "@,
            Error::MalformedData(_) => "malformed data: "@,
            Error::NetworkFailure(_) => "network failure: "@,
            Error::FilesystemFailure(_) => "filesystem failure: "@,
            Error::AlreadyInProgress(_) => "operation already in progress: "@,
        }
    }

    /// The name or path the error is about.
    pub open spec fn subject(&self) -> Seq<char> {
        match self {
            Error::NotFound(s) => s@,
            Error::MissingDefaultConfig(s) => s@,
            Error::MalformedData(s) => s@,
            Error::NetworkFailure(s) => s@,
            Error::FilesystemFailure(s) => s@,
            Error::AlreadyInProgress(s) => s@,
        }
    }
}

} // verus!
