//! The descriptor record: filename, file size, chunk size and chunk count.
//! The splitter persists it once every chunk has been written; the joiner
//! reads it back as the contract for reconstruction.

use vstd::prelude::*;

verus! {

use crate::plan::spec_num_chunks;

/// Bytes in one mebibyte: chunk sizes arrive from the caller in MiB and are
/// stored in the descriptor in bytes.
pub const MEBIBYTE_SIZE: usize = 1024 * 1024;

/// The descriptor for one completed split.
pub struct Metadata {
    /// Name of the file that was split, without its directory.
    pub filename: String,
    /// Length of the original file in bytes.
    pub filesize: usize,
    /// Chunk size in bytes, fixed at split time and stored verbatim.
    pub chunk_size: usize,
    /// How many chunk files the split produced.
    pub num_of_chunks: usize,
}

impl Metadata {
    /// A descriptor is well formed when its chunk size is positive and its
    /// chunk count is exactly the rounded-up quotient of its file size.
    pub open spec fn well_formed(self) -> bool {
        &&& self.chunk_size > 0
        &&& self.num_of_chunks == spec_num_chunks(self.filesize as int, self.chunk_size as int)
    }
}

/// Builds the descriptor from its four fields.
pub fn generate_metadata(
    filename: String,
    filesize: usize,
    chunk_size: usize,
    num_of_chunks: usize,
) -> (m: Metadata)
    ensures
        m.filename == filename,
        m.filesize == filesize,
        m.chunk_size == chunk_size,
        m.num_of_chunks == num_of_chunks,
{
    Metadata { filename, filesize, chunk_size, num_of_chunks }
}

} // verus!
