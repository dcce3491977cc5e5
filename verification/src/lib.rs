//! Core logic for a desktop file-browsing tool: a depth-bounded directory
//! scanner with deterministic ordering, a debounced filesystem-change
//! watcher, a byte-budget memory governor, a UTF-8-aware content chunker,
//! and a controller that keeps two presentation surfaces glued together.

pub mod errors;
pub mod governor;
pub mod history;
pub mod scanner;
pub mod streamer;
pub mod surface;
pub mod watcher;

use vstd::prelude::*;

verus! {

/// Hard ceiling on the size of a file that may be read or displayed, in bytes.
pub const MAX_FILE_SIZE: u64 = 10 * 1024 * 1024;

/// A file whose byte length is at most [`MAX_FILE_SIZE`] may be read.
pub open spec fn read_size_admissible(len: u64) -> bool {
    len <= MAX_FILE_SIZE
}

/// Gate applied before reading a file's content: files above the size
/// ceiling are rejected rather than loaded into memory.
pub fn check_read_size(len: u64) -> (r: Result<(), errors::CoreError>)
    ensures
        r is Ok <==> read_size_admissible(len),
        r is Err ==> r->Err_0 is TooLarge,
{
    if len > MAX_FILE_SIZE {
        Err(errors::CoreError::TooLarge)
    } else {
        Ok(())
    }
}

} // verus!
