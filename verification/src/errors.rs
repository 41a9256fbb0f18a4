//! Error types of every layer, their messages, and the wire error code each
//! one is answered with.

use vstd::prelude::*;
use vstd::string::StringExecFns;

use crate::protocol::{ErrorCode, ResponseError};

verus! {

#[verifier::external_type_specification]
#[verifier::external_body]
pub struct ExIoError(std::io::Error);

/// The text of an I/O error (`<std::io::Error as Display>::fmt`). Nothing is
/// stated of it: the text comes from the operating system.
#[verifier::external_body]
fn io_error_text(e: &std::io::Error) -> String {
    e.to_string()
}

/// An I/O error of kind `Other` carrying `message`
/// (`std::io::Error::other`). Nothing is stated of the value: the error
/// type is opaque here.
#[verifier::external_body]
pub(crate) fn other_io_error(message: String) -> std::io::Error {
    std::io::Error::other(message)
}

/// Filesystem-level error. Paths are the resolved paths as text.
#[derive(Debug)]
pub enum FsError {
    NotFound(String),
    AlreadyExists(String),
    NotUtf8(String),
    NotDir(String),
    NotFile(String),
    NotEmpty(String),
    SamePath,
    Io(std::io::Error),
}

pub open spec fn fs_error_message(e: FsError) -> Seq<char> {
    match e {
        FsError::NotFound(p) => "not found: "@ + p@,
        FsError::AlreadyExists(p) => "already exists: "@ + p@,
        FsError::NotUtf8(p) => "invalid UTF-8 in file: "@ + p@,
        FsError::NotDir(p) => "path is not a directory: "@ + p@,
        FsError::NotFile(p) => "path is not a file: "@ + p@,
        FsError::NotEmpty(p) => "directory not empty (recursive delete not allowed for root): "@
            + p@,
        FsError::SamePath => "source and destination are identical"@,
        FsError::Io(_) => "io error: "@,
    }
}

/// `m` is the message of `e`: exactly `fs_error_message(e)`, except that
/// the message of an I/O error continues with the error's own text after
/// that prefix.
pub open spec fn shows_fs_error(m: Seq<char>, e: FsError) -> bool {
    if e is Io {
        m.len() >= fs_error_message(e).len() && m.take(fs_error_message(e).len() as int)
            == fs_error_message(e)
    } else {
        m == fs_error_message(e)
    }
}

/// `prefix` followed by `rest`.
fn prefixed(prefix: &str, rest: &str) -> (r: String)
    ensures
        r@ == prefix@ + rest@,
{
    let mut m = prefix.to_owned();
    m.append(rest);
    m
}

impl FsError {
    /// The error's message.
    pub fn message(&self) -> (r: String)
        ensures
            shows_fs_error(r@, *self),
    {
        match self {
            FsError::NotFound(p) => prefixed("not found: ", p.as_str()),
            FsError::AlreadyExists(p) => prefixed("already exists: ", p.as_str()),
            FsError::NotUtf8(p) => prefixed("invalid UTF-8 in file: ", p.as_str()),
            FsError::NotDir(p) => prefixed("path is not a directory: ", p.as_str()),
            FsError::NotFile(p) => prefixed("path is not a file: ", p.as_str()),
            FsError::NotEmpty(p) => prefixed(
                "directory not empty (recursive delete not allowed for root): ",
                p.as_str(),
            ),
            FsError::SamePath => "source and destination are identical".to_owned(),
            FsError::Io(e) => {
                let text = io_error_text(e);
                let r = prefixed("io error: ", text.as_str());
                proof {
                    reveal_strlit("io error: ");
                    assert(r@.take(10) =~= "io error: "@);
                }
                r
            },
        }
    }

    /// The error a failed I/O call stands for: that error itself.
    pub fn from_io(e: std::io::Error) -> (r: FsError)
        ensures
            r == FsError::Io(e),
    {
        FsError::Io(e)
    }
}

/// A path that could not be resolved under the workspace roots.
#[derive(Debug)]
pub enum ResolveError {
    /// The path climbed out of every configured root.
    Escapes(String),
    /// The path was empty or otherwise malformed.
    Invalid(String),
}

pub open spec fn resolve_error_message(e: ResolveError) -> Seq<char> {
    match e {
        ResolveError::Escapes(p) => "path escapes all configured workspace roots: "@ + p@,
        ResolveError::Invalid(p) => "invalid path: "@ + p@,
    }
}

pub open spec fn resolve_error_code(e: ResolveError) -> ErrorCode {
    match e {
        ResolveError::Escapes(_) => ErrorCode::PathTraversal,
        ResolveError::Invalid(_) => ErrorCode::InvalidPath,
    }
}

impl ResolveError {
    /// The wire error code.
    pub fn code(&self) -> (r: ErrorCode)
        ensures
            r == resolve_error_code(*self),
    {
        match self {
            ResolveError::Escapes(_) => ErrorCode::PathTraversal,
            ResolveError::Invalid(_) => ErrorCode::InvalidPath,
        }
    }

    /// The error's message.
    pub fn message(&self) -> (r: String)
        ensures
            r@ == resolve_error_message(*self),
    {
        match self {
            ResolveError::Escapes(p) => prefixed(
                "path escapes all configured workspace roots: ",
                p.as_str(),
            ),
            ResolveError::Invalid(p) => prefixed("invalid path: ", p.as_str()),
        }
    }
}

/// Daemon-level error.
#[derive(Debug)]
pub enum DaemonError {
    Bad(String),
    Resolve(ResolveError),
    Fs(FsError),
    Denied,
    Internal(String),
}

pub open spec fn daemon_error_message(e: DaemonError) -> Seq<char> {
    match e {
        DaemonError::Bad(m) => "invalid request: "@ + m@,
        DaemonError::Resolve(r) => "path resolution failed: "@ + resolve_error_message(r),
        DaemonError::Fs(f) => "filesystem error: "@ + fs_error_message(f),
        DaemonError::Denied => "request denied by user"@,
        DaemonError::Internal(m) => "internal error: "@ + m@,
    }
}

/// `m` is the message of `e`: exactly `daemon_error_message(e)`, except that
/// the message of an I/O error continues with the error's own text.
pub open spec fn shows_daemon_error(m: Seq<char>, e: DaemonError) -> bool {
    if e matches DaemonError::Fs(FsError::Io(_)) {
        m.len() >= daemon_error_message(e).len() && m.take(daemon_error_message(e).len() as int)
            == daemon_error_message(e)
    } else {
        m == daemon_error_message(e)
    }
}

/// The wire code each daemon error is answered with.
pub open spec fn daemon_error_code(e: DaemonError) -> ErrorCode {
    match e {
        DaemonError::Bad(_) => ErrorCode::BadRequest,
        DaemonError::Resolve(r) => resolve_error_code(r),
        DaemonError::Fs(FsError::NotFound(_)) => ErrorCode::NotFound,
        DaemonError::Fs(FsError::AlreadyExists(_)) => ErrorCode::Conflict,
        DaemonError::Fs(FsError::Io(_)) => ErrorCode::Io,
        DaemonError::Fs(_) => ErrorCode::BadRequest,
        DaemonError::Denied => ErrorCode::Forbidden,
        DaemonError::Internal(_) => ErrorCode::Internal,
    }
}

impl DaemonError {
    /// The error a failed I/O call stands for: that error itself, as a
    /// filesystem error.
    pub fn from_io(e: std::io::Error) -> (r: DaemonError)
        ensures
            r == DaemonError::Fs(FsError::Io(e)),
    {
        DaemonError::Fs(FsError::from_io(e))
    }

    /// The wire error code.
    pub fn code(&self) -> (r: ErrorCode)
        ensures
            r == daemon_error_code(*self),
    {
        match self {
            DaemonError::Bad(_) => ErrorCode::BadRequest,
            DaemonError::Resolve(r) => r.code(),
            DaemonError::Fs(FsError::NotFound(_)) => ErrorCode::NotFound,
            DaemonError::Fs(FsError::AlreadyExists(_)) => ErrorCode::Conflict,
            DaemonError::Fs(FsError::Io(_)) => ErrorCode::Io,
            DaemonError::Fs(_) => ErrorCode::BadRequest,
            DaemonError::Denied => ErrorCode::Forbidden,
            DaemonError::Internal(_) => ErrorCode::Internal,
        }
    }

    /// The error's message.
    pub fn message(&self) -> (r: String)
        ensures
            shows_daemon_error(r@, *self),
    {
        match self {
            DaemonError::Bad(m) => prefixed("invalid request: ", m.as_str()),
            DaemonError::Resolve(r) => {
                let inner = r.message();
                prefixed("path resolution failed: ", inner.as_str())
            },
            DaemonError::Fs(f) => {
                let inner = f.message();
                let r = prefixed("filesystem error: ", inner.as_str());
                proof {
                    let pre = "filesystem error: "@;
                    let fm = fs_error_message(*f);
                    if f is Io {
                        assert((pre + inner@).take((pre + fm).len() as int) =~= pre + inner@.take(
                            fm.len() as int,
                        ));
                    }
                }
                r
            },
            DaemonError::Denied => "request denied by user".to_owned(),
            DaemonError::Internal(m) => prefixed("internal error: ", m.as_str()),
        }
    }

    /// The wire error this daemon error is answered with.
    pub fn to_response_error(&self) -> (r: ResponseError)
        ensures
            r.code == daemon_error_code(*self),
            shows_daemon_error(r.message@, *self),
    {
        ResponseError { code: self.code(), message: self.message() }
    }
}

/// A refused request is answered with the `Forbidden` code.
pub proof fn law_denied_is_forbidden()
    ensures
        daemon_error_code(DaemonError::Denied) == ErrorCode::Forbidden,
{
}

/// Configuration error.
#[derive(Debug)]
pub enum ConfigError {
    NoRoots,
    RootMissing(String),
    Canonicalize { path: String, source: String },
    BadAddress(String),
}

pub open spec fn config_error_message(e: ConfigError) -> Seq<char> {
    match e {
        ConfigError::NoRoots => "no workspace roots configured; refusing to start"@,
        ConfigError::RootMissing(p) => "workspace root does not exist: "@ + p@,
        ConfigError::Canonicalize { path, source } => "failed to canonicalize workspace root "@
            + path@ + ": "@ + source@,
        ConfigError::BadAddress(a) => "invalid bind address: "@ + a@,
    }
}

impl ConfigError {
    /// The error's message.
    pub fn message(&self) -> (r: String)
        ensures
            r@ == config_error_message(*self),
    {
        match self {
            ConfigError::NoRoots => "no workspace roots configured; refusing to start".to_owned(),
            ConfigError::RootMissing(p) => prefixed("workspace root does not exist: ", p.as_str()),
            ConfigError::Canonicalize { path, source } => {
                let mut m = prefixed("failed to canonicalize workspace root ", path.as_str());
                m.append(": ");
                m.append(source.as_str());
                m
            },
            ConfigError::BadAddress(a) => prefixed("invalid bind address: ", a.as_str()),
        }
    }
}

} // verus!
