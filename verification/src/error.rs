//! Reasons for which an image cannot be made.
use vstd::prelude::*;

verus! {

/// Why an image could not be created, populated or finished.
#[derive(Clone, Copy, Debug, PartialEq, Eq, Structural)]
pub enum BfsError {
    /// The requested size was zero megabytes.
    SizeNotPositive,
    /// The requested size does not fit the 32-bit byte offsets of BFS.
    ImageTooLarge,
    /// The image has no room after the inode table.
    FilesystemTooSmall,
    /// A directory entry already holds the same (truncated) name.
    DuplicateName,
    /// All inodes are in use.
    NoFreeInodes,
    /// The file is longer than a 32-bit size can state.
    FileTooLarge,
    /// The data area has no run of free blocks long enough.
    NoFreeBlocks,
}

/// The text that tells what went wrong.
pub open spec fn message_text(e: BfsError) -> Seq<char> {
    match e {
        BfsError::SizeNotPositive => "size must be positive"@,
        BfsError::ImageTooLarge => "image size exceeds 4 GB"@,
        BfsError::FilesystemTooSmall => "filesystem too small"@,
        BfsError::DuplicateName => "duplicate 14-byte directory name"@,
        BfsError::NoFreeInodes => "no free inodes"@,
        BfsError::FileTooLarge => "file exceeds 4 GB"@,
        BfsError::NoFreeBlocks => "no free blocks"@,
    }
}

impl BfsError {
    /// A message that says what went wrong.
    pub fn message(&self) -> (m: &'static str)
        ensures
            m@ == message_text(*self),
    {
        match self {
            BfsError::SizeNotPositive => "size must be positive",
            BfsError::ImageTooLarge => "image size exceeds 4 GB",
            BfsError::FilesystemTooSmall => "filesystem too small",
            BfsError::DuplicateName => "duplicate 14-byte directory name",
            BfsError::NoFreeInodes => "no free inodes",
            BfsError::FileTooLarge => "file exceeds 4 GB",
            BfsError::NoFreeBlocks => "no free blocks",
        }
    }
}

} // verus!
