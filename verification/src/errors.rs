use vstd::prelude::*;

verus! {

/// The ways a flatten operation can fail.
///
/// The first three arise from this library's own checks; `FilesystemError`
/// is the catch-all for failures reported by the underlying filesystem
/// (or registry) while the caller carries the operation out.
#[derive(Clone, Copy, Debug, PartialEq, Eq)]
pub enum FlattenError {
    /// The target directory has no parent (it is a filesystem root).
    NoParentDirectory,
    /// The reserved staging directory already exists beside the target,
    /// which signals a crashed prior run or a concurrent invocation.
    StagingAlreadyExists,
    /// A direct child of the target directory has no usable base name.
    InvalidEntryName,
    /// Any create/remove/rename/enumeration failure from the filesystem.
    FilesystemError,
}

impl FlattenError {
    /// The human-readable description of this error.
    pub open spec fn message_spec(self) -> Seq<char> {
        match self {
            FlattenError::NoParentDirectory => "Parent directory not found"@,
            FlattenError::StagingAlreadyExists => "Temporary folder already exists"@,
            FlattenError::InvalidEntryName => "Invalid file name"@,
            FlattenError::FilesystemError => "Filesystem operation failed"@,
        }
    }

    pub fn message(&self) -> (r: &'static str)
        ensures
            r@ == self.message_spec(),
    {
        match self {
            FlattenError::NoParentDirectory => "Parent directory not found",
            FlattenError::StagingAlreadyExists => "Temporary folder already exists",
            FlattenError::InvalidEntryName => "Invalid file name",
            FlattenError::FilesystemError => "Filesystem operation failed",
        }
    }
}

} // verus!
