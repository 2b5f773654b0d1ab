//! The library's error taxonomy.
use vstd::prelude::*;

use crate::text::push_str;

verus! {

/// Every way a request can fail, each with a human-readable detail.
#[derive(Debug, Clone, PartialEq, Eq)]
pub enum GcpError {
    /// A malformed or unsupported source string.
    InvalidUrl(String),
    /// A transport failure or a non-2xx status.
    NetworkError(String),
    FileSystemError(String),
    /// Malformed base64, chunk-size line or JSON fragment.
    ParseError(String),
    /// A repository-kind resource was requested.
    UnsupportedOperation(String),
    /// A folder operation on a resource that is not a folder.
    InvalidOperation(String),
    IoError(String),
    NotFound(String),
    PermissionDenied(String),
}

pub type GcpResult<T> = Result<T, GcpError>;

/// What a filesystem failure was, as far as the error taxonomy cares.
#[derive(Debug, Clone, Copy, PartialEq, Eq, Structural)]
pub enum IoFailure {
    NotFound,
    PermissionDenied,
    Other,
}

/// The variant of a `GcpError`, without its detail.
#[derive(Debug, Clone, Copy, PartialEq, Eq, Structural)]
pub enum ErrorKind {
    InvalidUrl,
    Network,
    FileSystem,
    Parse,
    UnsupportedOperation,
    InvalidOperation,
    Io,
    NotFound,
    PermissionDenied,
}

impl GcpError {
    pub open spec fn kind(&self) -> ErrorKind {
        match self {
            GcpError::InvalidUrl(_) => ErrorKind::InvalidUrl,
            GcpError::NetworkError(_) => ErrorKind::Network,
            GcpError::FileSystemError(_) => ErrorKind::FileSystem,
            GcpError::ParseError(_) => ErrorKind::Parse,
            GcpError::UnsupportedOperation(_) => ErrorKind::UnsupportedOperation,
            GcpError::InvalidOperation(_) => ErrorKind::InvalidOperation,
            GcpError::IoError(_) => ErrorKind::Io,
            GcpError::NotFound(_) => ErrorKind::NotFound,
            GcpError::PermissionDenied(_) => ErrorKind::PermissionDenied,
        }
    }

    /// The label that introduces each variant in `describe`.
    pub open spec fn label(&self) -> Seq<char> {
        match self {
            GcpError::InvalidUrl(_) => "Invalid URL: "@,
            GcpError::NetworkError(_) => "Network error: "@,
            GcpError::FileSystemError(_) => "Filesystem error: "@,
            GcpError::ParseError(_) => "Parse error: "@,
            GcpError::UnsupportedOperation(_) => "Unsupported operation: "@,
            GcpError::InvalidOperation(_) => "Invalid operation: "@,
            GcpError::IoError(_) => "IO error: "@,
            GcpError::NotFound(_) => "Not found: "@,
            GcpError::PermissionDenied(_) => "Permission denied: "@,
        }
    }

    /// The detail that every variant carries.
    pub open spec fn detail(&self) -> Seq<char> {
        match self {
            GcpError::InvalidUrl(m) => m@,
            GcpError::NetworkError(m) => m@,
            GcpError::FileSystemError(m) => m@,
            GcpError::ParseError(m) => m@,
            GcpError::UnsupportedOperation(m) => m@,
            GcpError::InvalidOperation(m) => m@,
            GcpError::IoError(m) => m@,
            GcpError::NotFound(m) => m@,
            GcpError::PermissionDenied(m) => m@,
        }
    }

    /// The error as a line of text: its label, then its detail.
    pub fn describe(&self) -> (r: String)
        ensures
            r@ == self.label() + self.detail(),
    {
        let (label, detail) = match self {
            GcpError::InvalidUrl(m) => ("Invalid URL: ", m),
            GcpError::NetworkError(m) => ("Network error: ", m),
            GcpError::FileSystemError(m) => ("Filesystem error: ", m),
            GcpError::ParseError(m) => ("Parse error: ", m),
            GcpError::UnsupportedOperation(m) => ("Unsupported operation: ", m),
            GcpError::InvalidOperation(m) => ("Invalid operation: ", m),
            GcpError::IoError(m) => ("IO error: ", m),
            GcpError::NotFound(m) => ("Not found: ", m),
            GcpError::PermissionDenied(m) => ("Permission denied: ", m),
        };
        let mut r = String::new();
        push_str(&mut r, label);
        push_str(&mut r, detail.as_str());
        r
    }

    /// Maps a filesystem failure onto the taxonomy.
    pub fn from_io(kind: IoFailure, message: String) -> (r: GcpError)
        ensures
            r == match kind {
                IoFailure::NotFound => GcpError::NotFound(message),
                IoFailure::PermissionDenied => GcpError::PermissionDenied(message),
                IoFailure::Other => GcpError::IoError(message),
            },
    {
        match kind {
            IoFailure::NotFound => GcpError::NotFound(message),
            IoFailure::PermissionDenied => GcpError::PermissionDenied(message),
            IoFailure::Other => GcpError::IoError(message),
        }
    }
}

} // verus!
