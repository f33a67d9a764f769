use vstd::prelude::*;

verus! {

/// Error kinds reported by the file system.
#[derive(Clone, Copy, Debug, PartialEq, Eq, Structural)]
pub enum Error {
    /// A descriptor, node, or name was not present.
    NotFound,
    /// The operation is not valid for the handle's kind.
    InvalidFileType,
    /// A name exceeds the fixed name-length bound.
    NameTooLong,
    /// A create collided with an existing entry, or an exclusive open was requested.
    FileAlreadyExists,
    /// Removal of a directory that still has entries was rejected.
    DirectoryNotEmpty,
    /// A seek computed an offset that is negative or beyond the representable range.
    InvalidOffset,
    /// The operation is declared but not supported (symbolic links).
    Unsupported,
}

} // verus!
