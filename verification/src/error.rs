//! The failures that the store and the repository report.

use vstd::prelude::*;
use vstd::string::StringExecFns;

verus! {

/// Every way in which an operation of this crate can fail.
#[derive(Clone, Copy, Debug, PartialEq, Eq, Structural)]
pub enum Error {
    /// A hash was not written as 40 hexadecimal digits.
    InvalidHash,
    /// No object is stored at the path derived from a hash.
    NotFound,
    /// An object already occupies the path derived from a hash.
    AlreadyExists,
    /// A stored object has no null terminator, or no space, in its header.
    MalformedHeader,
    /// The kind token of a stored object's header is not a known kind.
    InvalidKind,
    /// The size token of a stored object's header is not a number.
    InvalidSize,
    /// The size declared in a stored object's header is not its payload's length.
    SizeMismatch,
    /// A stored object does not hash to the name under which it was found.
    HashMismatch,
    /// A stored object is not a valid compressed stream.
    DecompressionError,
    /// No metadata directory was found in a path or any of its ancestors.
    NoRepository,
    /// A metadata directory is already present where one was to be created.
    AlreadyInitialized,
    /// A repository declares a storage format other than version 0.
    UnsupportedFormatVersion,
    /// A settings source is malformed, or a value in it has the wrong type.
    ConfigError,
    /// The file tree refused an operation for a reason not listed above.
    IOError,
}

impl Error {
    /// The text of the message for each failure.
    pub open spec fn message_text(self) -> Seq<char> {
        match self {
            Error::InvalidHash => "Invalid hash: expected 40 hexadecimal characters"@,
            Error::NotFound => "Object not found at the path of its hash"@,
            Error::AlreadyExists => "Object already exists at the path of its hash"@,
            Error::MalformedHeader => "Invalid object header: missing null terminator, or missing type or size"@,
            Error::InvalidKind => "Invalid object type"@,
            Error::InvalidSize => "Invalid size"@,
            Error::SizeMismatch => "Object size mismatch: header and payload disagree"@,
            Error::HashMismatch => "Object hash mismatch: content does not hash to its name"@,
            Error::DecompressionError => "Failed to decompress object data"@,
            Error::NoRepository => "Not a git repository"@,
            Error::AlreadyInitialized => "Directory is already a git repository"@,
            Error::UnsupportedFormatVersion => "Unsupported repositoryformatversion"@,
            Error::ConfigError => "Invalid configuration"@,
            Error::IOError => "File tree operation failed"@,
        }
    }

    /// A human-readable message for this failure.
    pub fn message(&self) -> (text: String)
        ensures
            text@ == self.message_text(),
    {
        match self {
            Error::InvalidHash => String::from_str("Invalid hash: expected 40 hexadecimal characters"),
            Error::NotFound => String::from_str("Object not found at the path of its hash"),
            Error::AlreadyExists => String::from_str("Object already exists at the path of its hash"),
            Error::MalformedHeader => String::from_str("Invalid object header: missing null terminator, or missing type or size"),
            Error::InvalidKind => String::from_str("Invalid object type"),
            Error::InvalidSize => String::from_str("Invalid size"),
            Error::SizeMismatch => String::from_str("Object size mismatch: header and payload disagree"),
            Error::HashMismatch => String::from_str("Object hash mismatch: content does not hash to its name"),
            Error::DecompressionError => String::from_str("Failed to decompress object data"),
            Error::NoRepository => String::from_str("Not a git repository"),
            Error::AlreadyInitialized => String::from_str("Directory is already a git repository"),
            Error::UnsupportedFormatVersion => String::from_str("Unsupported repositoryformatversion"),
            Error::ConfigError => String::from_str("Invalid configuration"),
            Error::IOError => String::from_str("File tree operation failed"),
        }
    }
}

} // verus!
