//! Application-specific error types.
//!
//! Every failure the exporter can hit is a variant of [`Error`], so callers
//! can give a distinct, actionable message per kind: authentication versus
//! rate limit versus missing asset versus local I/O trouble.

use vstd::prelude::*;

verus! {

/// The class of a local I/O failure, as far as the exporter distinguishes
/// them for messaging: permission problems and exhausted storage get their
/// own texts, everything else passes through.
#[derive(Debug, Clone, Copy, PartialEq, Eq, Structural)]
pub enum IoErrorClass {
    /// The operating system denied permission.
    PermissionDenied,
    /// The storage is full or a quota was exceeded.
    StorageFull,
    /// A write wrote zero bytes; treated like exhausted storage.
    WriteZero,
    /// Any other I/O failure.
    Other,
}

/// A local I/O failure: its class and its display text.
#[derive(Debug, Clone)]
pub struct IoFailure {
    /// The class of the failure.
    pub class: IoErrorClass,
    /// The failure's display text.
    pub message: String,
}

/// Application-specific error kinds.
#[derive(Debug, Clone)]
pub enum Error {
    /// The GitHub CLI is not installed.
    GitHubCliNotFound,
    /// Authentication failed (credentials missing or rejected).
    Authentication,
    /// Invalid command-line arguments.
    InvalidArgs(String),
    /// A local I/O failure.
    Io(IoFailure),
    /// An HTTP request failed.
    Http(String),
    /// The GraphQL API reported errors.
    GraphQL(String),
    /// A response could not be parsed.
    JsonParse(String),
    /// The API rate limit was exceeded.
    RateLimit,
    /// The platform denied access.
    PermissionDenied(String),
    /// The API broke one of its own documented invariants.
    ApiInvariant(String),
}

/// The display text of an error, one fixed message per kind.
pub open spec fn spec_error_message(e: Error) -> Seq<char> {
    match e {
        Error::GitHubCliNotFound => "GitHub CLI not found. Install from https://cli.github.com/"@,
        Error::Authentication => "Failed to authenticate with GitHub CLI. Run 'gh auth login' to authenticate."@,
        Error::InvalidArgs(m) => "Invalid arguments: "@ + m@,
        Error::Io(f) => "I/O error: "@ + f.message@,
        Error::Http(m) => "HTTP request failed: "@ + m@,
        Error::GraphQL(m) => "GraphQL error: "@ + m@,
        Error::JsonParse(m) => "Failed to parse response: "@ + m@,
        Error::RateLimit => "GitHub API rate limit exceeded. Please wait before trying again."@,
        Error::PermissionDenied(m) => "Permission denied: "@ + m@,
        Error::ApiInvariant(m) => "API invariant violation: "@ + m@,
    }
}

impl Error {
    /// The error's display text.
    pub fn message(&self) -> (r: String)
        ensures
            r@ == spec_error_message(*self),
    {
        match self {
            Error::GitHubCliNotFound => "GitHub CLI not found. Install from https://cli.github.com/".to_owned(),
            Error::Authentication => "Failed to authenticate with GitHub CLI. Run 'gh auth login' to authenticate.".to_owned(),
            Error::InvalidArgs(m) => {
                let mut s = "Invalid arguments: ".to_owned();
                s.append(m.as_str());
                s
            },
            Error::Io(f) => {
                let mut s = "I/O error: ".to_owned();
                s.append(f.message.as_str());
                s
            },
            Error::Http(m) => {
                let mut s = "HTTP request failed: ".to_owned();
                s.append(m.as_str());
                s
            },
            Error::GraphQL(m) => {
                let mut s = "GraphQL error: ".to_owned();
                s.append(m.as_str());
                s
            },
            Error::JsonParse(m) => {
                let mut s = "Failed to parse response: ".to_owned();
                s.append(m.as_str());
                s
            },
            Error::RateLimit => "GitHub API rate limit exceeded. Please wait before trying again.".to_owned(),
            Error::PermissionDenied(m) => {
                let mut s = "Permission denied: ".to_owned();
                s.append(m.as_str());
                s
            },
            Error::ApiInvariant(m) => {
                let mut s = "API invariant violation: ".to_owned();
                s.append(m.as_str());
                s
            },
        }
    }
}

/// `std::io::Error` carried through trusted declarations, so that verified
/// code can take one apart into the crate's own [`IoFailure`].
#[verifier::external_type_specification]
#[verifier::external_body]
pub struct ExIoError(std::io::Error);

/// Relies on `std::io::Error::kind`: maps each error-kind variant the crate
/// distinguishes to the matching [`IoErrorClass`], one arm each.
#[verifier::external_body]
fn io_error_class(e: &std::io::Error) -> IoErrorClass {
    match e.kind() {
        std::io::ErrorKind::PermissionDenied => IoErrorClass::PermissionDenied,
        std::io::ErrorKind::StorageFull => IoErrorClass::StorageFull,
        std::io::ErrorKind::WriteZero => IoErrorClass::WriteZero,
        _ => IoErrorClass::Other,
    }
}

/// Relies on `std::io::Error`'s `Display` impl, through `ToString`, for the
/// failure's text.
#[verifier::external_body]
fn io_error_text(e: &std::io::Error) -> String {
    e.to_string()
}

impl From<std::io::Error> for Error {
    /// An I/O error becomes an [`Error::Io`] carrying its class and text.
    fn from(e: std::io::Error) -> (r: Error) {
        Error::Io(IoFailure { class: io_error_class(&e), message: io_error_text(&e) })
    }
}

impl vstd::std_specs::convert::FromSpecImpl<std::io::Error> for Error {
    open spec fn obeys_from_spec() -> bool {
        false
    }

    open spec fn from_spec(e: std::io::Error) -> Error {
        arbitrary()
    }
}

/// Given the class and text of an I/O failure met during `operation`, the
/// class and message of the failure to report: permission problems carry a
/// message naming the operation, exhausted storage gets a fixed message,
/// everything else keeps its own text.
pub open spec fn spec_categorized(class: IoErrorClass, text: Seq<char>, operation: Seq<char>) -> (
    IoErrorClass,
    Seq<char>,
) {
    match class {
        IoErrorClass::PermissionDenied => (
            IoErrorClass::PermissionDenied,
            "Permission denied: failed to "@ + operation + " for asset: "@ + text,
        ),
        IoErrorClass::StorageFull => (
            IoErrorClass::StorageFull,
            "Disk full or storage quota exceeded"@,
        ),
        IoErrorClass::WriteZero => (
            IoErrorClass::StorageFull,
            "Disk full or storage quota exceeded"@,
        ),
        IoErrorClass::Other => (IoErrorClass::Other, text),
    }
}

/// Build the [`Error`] reported for an I/O failure of the given class and
/// text, met during `operation`.
pub fn classify_io_failure(class: IoErrorClass, text: String, operation: &str) -> (r: Error)
    ensures
        r matches Error::Io(f) && (f.class, f.message@) == spec_categorized(
            class,
            text@,
            operation@,
        ),
{
    match class {
        IoErrorClass::PermissionDenied => {
            let mut s = "Permission denied: failed to ".to_owned();
            s.append(operation);
            s.append(" for asset: ");
            s.append(text.as_str());
            Error::Io(IoFailure { class: IoErrorClass::PermissionDenied, message: s })
        },
        IoErrorClass::StorageFull | IoErrorClass::WriteZero => Error::Io(
            IoFailure {
                class: IoErrorClass::StorageFull,
                message: "Disk full or storage quota exceeded".to_owned(),
            },
        ),
        IoErrorClass::Other => Error::Io(IoFailure { class: IoErrorClass::Other, message: text }),
    }
}

/// Categorize a raw I/O error met during `operation` into the crate's error
/// type. Whatever the error, the result is an [`Error::Io`] whose class and
/// message follow [`spec_categorized`] for the error's own class and text.
pub fn categorize_io_error(e: std::io::Error, operation: &str) -> (r: Error)
    ensures
        r matches Error::Io(f),
{
    let class = io_error_class(&e);
    let text = io_error_text(&e);
    classify_io_failure(class, text, operation)
}

} // verus!
