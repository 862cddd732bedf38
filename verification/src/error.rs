//! Failure conditions of the version manager and of the cloud client layer.
//!
//! Conditions that the surrounding tooling raises (I/O, transport, decoding)
//! carry the underlying error's text; the manager's own conditions carry the
//! version strings they speak about.

use vstd::prelude::*;
use vstd::string::StringExecFns;

verus! {

#[derive(Debug)]
pub enum Error {
    /// A filesystem operation failed; carries the underlying error's text.
    Io(String),
    /// An HTTP request failed; carries the underlying error's text.
    Http(String),
    /// Decoding a remote payload failed; carries the underlying error's text.
    Json(String),
    /// The named version is not installed.
    VersionNotFound(String),
    /// No version is installed at all.
    NoVersionsInstalled,
    /// The default pointer file is absent or empty.
    NoDefaultVersion,
    /// The named version's directory already exists.
    VersionAlreadyInstalled(String),
    /// The host is not one of the supported platform combinations.
    UnsupportedPlatform { os: String, arch: String },
    /// A directory could not be created; carries its location.
    CreateDir(String),
    /// The artifact download failed; carries the location and error text.
    Download(String),
    /// No catalog entry matches the given specifier.
    NoMatchingVersion(String),
    /// Launching the installed binary failed; carries the error's text.
    Exec(String),
    /// The cloud API reported a failure; carries its message.
    Cloud(String),
}

/// The user-facing text of each failure condition.
pub open spec fn error_text(e: Error) -> Seq<char> {
    match e {
        Error::Io(s) => "IO error: "@ + s@,
        Error::Http(s) => "HTTP request failed: "@ + s@,
        Error::Json(s) => "JSON parsing failed: "@ + s@,
        Error::VersionNotFound(s) => "Version "@ + s@ + " not found"@,
        Error::NoVersionsInstalled => "No versions installed"@,
        Error::NoDefaultVersion => "No default version set. Run: chv use <version>"@,
        Error::VersionAlreadyInstalled(s) => "Version "@ + s@ + " is already installed"@,
        Error::UnsupportedPlatform { os, arch } => "Unsupported platform: "@ + os@ + "/"@
            + arch@,
        Error::CreateDir(s) => "Failed to create directory: "@ + s@,
        Error::Download(s) => "Download failed: "@ + s@,
        Error::NoMatchingVersion(s) => "No matching version found for: "@ + s@,
        Error::Exec(s) => "Failed to execute ClickHouse: "@ + s@,
        Error::Cloud(s) => "Cloud API error: "@ + s@,
    }
}

impl Error {
    /// Renders the condition as its user-facing message.
    pub fn describe(&self) -> (r: String)
        ensures
            r@ == error_text(*self),
    {
        match self {
            Error::Io(s) => {
                let mut m = "IO error: ".to_owned();
                m.append(s.as_str());
                m
            },
            Error::Http(s) => {
                let mut m = "HTTP request failed: ".to_owned();
                m.append(s.as_str());
                m
            },
            Error::Json(s) => {
                let mut m = "JSON parsing failed: ".to_owned();
                m.append(s.as_str());
                m
            },
            Error::VersionNotFound(s) => {
                let mut m = "Version ".to_owned();
                m.append(s.as_str());
                m.append(" not found");
                m
            },
            Error::NoVersionsInstalled => "No versions installed".to_owned(),
            Error::NoDefaultVersion => "No default version set. Run: chv use <version>".to_owned(),
            Error::VersionAlreadyInstalled(s) => {
                let mut m = "Version ".to_owned();
                m.append(s.as_str());
                m.append(" is already installed");
                m
            },
            Error::UnsupportedPlatform { os, arch } => {
                let mut m = "Unsupported platform: ".to_owned();
                m.append(os.as_str());
                m.append("/");
                m.append(arch.as_str());
                m
            },
            Error::CreateDir(s) => {
                let mut m = "Failed to create directory: ".to_owned();
                m.append(s.as_str());
                m
            },
            Error::Download(s) => {
                let mut m = "Download failed: ".to_owned();
                m.append(s.as_str());
                m
            },
            Error::NoMatchingVersion(s) => {
                let mut m = "No matching version found for: ".to_owned();
                m.append(s.as_str());
                m
            },
            Error::Exec(s) => {
                let mut m = "Failed to execute ClickHouse: ".to_owned();
                m.append(s.as_str());
                m
            },
            Error::Cloud(s) => {
                let mut m = "Cloud API error: ".to_owned();
                m.append(s.as_str());
                m
            },
        }
    }
}

} // verus!
