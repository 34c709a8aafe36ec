//! The error taxonomy: every failure the core classifies or propagates is a
//! value of [`Error`], returned to the caller; the boundary alone decides
//! formatting and exit codes. Filesystem and archive-reading failures are
//! not raised by the core itself: the boundary classifies them into
//! [`IoErrorKind`] or [`ZipErrorKind`] and maps them in through `From`.

use vstd::prelude::*;

verus! {

/// The fixed set of failure kinds surfaced by the core and its boundary.
#[derive(PartialEq, Eq, Debug)]
pub enum Error {
    UnknownExtensionError(String),
    MissingExtensionError(String),
    InvalidUnicode,
    InvalidInput,
    IOError,
    FileNotFound,
    AlreadyExists,
    InvalidZipArchive(&'static str),
    PermissionDenied,
    UnsupportedZipArchive(&'static str),
    InputsMustHaveBeenDecompressible(String),
}

pub type OuchResult<T> = Result<T, Error>;

/// The classification of an operating-system I/O failure, as far as the
/// taxonomy distinguishes it; the boundary reads it off the platform's
/// error signal.
#[derive(Clone, Copy, Debug, PartialEq, Eq, Structural)]
pub enum IoErrorKind {
    NotFound,
    PermissionDenied,
    AlreadyExists,
    Other,
}

/// The classification of an archive-reading failure, as the archive
/// collaborator reports it.
#[derive(Clone, Copy, Debug, PartialEq, Eq)]
pub enum ZipErrorKind {
    Io(IoErrorKind),
    InvalidArchive(&'static str),
    FileNotFound,
    UnsupportedArchive(&'static str),
}

impl From<IoErrorKind> for Error {
    /// Maps a classified I/O failure into the taxonomy.
    fn from(kind: IoErrorKind) -> (r: Error) {
        match kind {
            IoErrorKind::NotFound => Error::FileNotFound,
            IoErrorKind::PermissionDenied => Error::PermissionDenied,
            IoErrorKind::AlreadyExists => Error::AlreadyExists,
            IoErrorKind::Other => Error::IOError,
        }
    }
}

impl vstd::std_specs::convert::FromSpecImpl<IoErrorKind> for Error {
    open spec fn obeys_from_spec() -> bool {
        true
    }

    open spec fn from_spec(kind: IoErrorKind) -> Error {
        match kind {
            IoErrorKind::NotFound => Error::FileNotFound,
            IoErrorKind::PermissionDenied => Error::PermissionDenied,
            IoErrorKind::AlreadyExists => Error::AlreadyExists,
            IoErrorKind::Other => Error::IOError,
        }
    }
}

impl From<ZipErrorKind> for Error {
    /// Maps a classified archive-reading failure into the taxonomy; an I/O
    /// failure underneath it is classified as such.
    fn from(kind: ZipErrorKind) -> (r: Error) {
        match kind {
            ZipErrorKind::Io(io_kind) => Error::from(io_kind),
            ZipErrorKind::InvalidArchive(reason) => Error::InvalidZipArchive(reason),
            ZipErrorKind::FileNotFound => Error::FileNotFound,
            ZipErrorKind::UnsupportedArchive(reason) => Error::UnsupportedZipArchive(reason),
        }
    }
}

impl vstd::std_specs::convert::FromSpecImpl<ZipErrorKind> for Error {
    open spec fn obeys_from_spec() -> bool {
        true
    }

    open spec fn from_spec(kind: ZipErrorKind) -> Error {
        match kind {
            ZipErrorKind::Io(io_kind) => <Error as vstd::std_specs::convert::FromSpec<
                IoErrorKind,
            >>::from_spec(io_kind),
            ZipErrorKind::InvalidArchive(reason) => Error::InvalidZipArchive(reason),
            ZipErrorKind::FileNotFound => Error::FileNotFound,
            ZipErrorKind::UnsupportedArchive(reason) => Error::UnsupportedZipArchive(reason),
        }
    }
}

/// The text of each error, including the triggering file name where one is
/// available.
pub open spec fn spec_message(e: Error) -> Seq<char> {
    match e {
        Error::InvalidInput => "When `-o/--output` is omitted, all input files should be compressed files."@,
        Error::MissingExtensionError(
            name,
        ) => "cannot compress to '"@ + name@
            + "', likely because it has an unsupported (or missing) extension."@,
        Error::InputsMustHaveBeenDecompressible(name) => "file '"@ + name@
            + "' is not decompressible"@,
        Error::FileNotFound => "file not found!"@,
        Error::UnknownExtensionError(name) => "file '"@ + name@
            + "' has an extension that matches no recognized format"@,
        Error::InvalidUnicode => "a file name holds invalid unicode"@,
        Error::IOError => "IO error"@,
        Error::AlreadyExists => "file already exists"@,
        Error::PermissionDenied => "permission denied"@,
        Error::InvalidZipArchive(reason) => "invalid zip archive: "@ + reason@,
        Error::UnsupportedZipArchive(reason) => "unsupported zip archive: "@ + reason@,
    }
}

impl Error {
    /// The human-readable description of this error: a pure mapping from the
    /// error value to text, with no I/O and no recovery.
    pub fn message(&self) -> (r: String)
        ensures
            r@ == spec_message(*self),
    {
        match self {
            Error::InvalidInput => String::from_str(
                "When `-o/--output` is omitted, all input files should be compressed files.",
            ),
            Error::MissingExtensionError(name) => {
                let mut s = String::from_str("cannot compress to '");
                s.append(name.as_str());
                s.append("', likely because it has an unsupported (or missing) extension.");
                s
            },
            Error::InputsMustHaveBeenDecompressible(name) => {
                let mut s = String::from_str("file '");
                s.append(name.as_str());
                s.append("' is not decompressible");
                s
            },
            Error::FileNotFound => String::from_str("file not found!"),
            Error::UnknownExtensionError(name) => {
                let mut s = String::from_str("file '");
                s.append(name.as_str());
                s.append("' has an extension that matches no recognized format");
                s
            },
            Error::InvalidUnicode => String::from_str("a file name holds invalid unicode"),
            Error::IOError => String::from_str("IO error"),
            Error::AlreadyExists => String::from_str("file already exists"),
            Error::PermissionDenied => String::from_str("permission denied"),
            Error::InvalidZipArchive(reason) => {
                let mut s = String::from_str("invalid zip archive: ");
                s.append(reason);
                s
            },
            Error::UnsupportedZipArchive(reason) => {
                let mut s = String::from_str("unsupported zip archive: ");
                s.append(reason);
                s
            },
        }
    }
}

} // verus!
