//! Errors of the file operations, and the size cap on text reads.
use vstd::prelude::*;

verus! {

/// Why a file operation failed.
#[derive(PartialEq, Eq, Structural, Debug, Clone, Copy)]
pub enum FsError {
    NotFound,
    NotADirectory,
    AccessDenied,
    ReadError,
    TooLarge,
}

/// Files of this many bytes or more are not read as text (10 MiB).
pub const TEXT_SIZE_CAP: u64 = 10 * 1024 * 1024;

/// A text read of a file of `len` bytes may go ahead: it fails with
/// `TooLarge` exactly when the file holds at least the cap.
pub fn check_text_size(len: u64) -> (r: Result<(), FsError>)
    ensures
        r is Ok <==> len < TEXT_SIZE_CAP,
        r is Err ==> r == Err::<(), FsError>(FsError::TooLarge),
{
    if len >= TEXT_SIZE_CAP {
        Err(FsError::TooLarge)
    } else {
        Ok(())
    }
}

} // verus!
