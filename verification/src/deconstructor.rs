//! The splitter: cuts a file, held in memory, into the chunks of its plan and
//! builds the descriptor that reverses the cut. Writing the chunk files and
//! the descriptor file to disk is the surrounding binary's part; it receives
//! every byte and every name from here.

use vstd::prelude::*;

verus! {

use crate::metadata::{MEBIBYTE_SIZE, Metadata, generate_metadata};
use crate::plan::{
    chunk_boundary, lemma_chunk_len, lemma_chunk_start_in_range, num_of_chunks, spec_chunks_of,
    spec_num_chunks,
};
use vstd::slice::{slice_subrange, slice_to_vec};

/// What a split request came to. An I/O failure while persisting the result
/// is the caller's to report; it cannot arise here.
pub enum SplitOutcome {
    /// The file is already small enough (or the chunk size was not positive):
    /// nothing is to be written, the caller only informs the user.
    Refused,
    /// The chunk contents, in order, and the descriptor to persist once every
    /// chunk has been written.
    Split { chunks: Vec<Vec<u8>>, metadata: Metadata },
}

/// A split in preparation: the source file's bytes and the parameters of the
/// plan.
pub struct Deconstructor {
    /// The whole source file.
    pub bytes: Vec<u8>,
    /// The source file's name, without its directory.
    pub filename: String,
    /// The source file's length in bytes.
    pub filesize: usize,
    /// The requested chunk size in bytes.
    pub chunk_size: usize,
}

impl Deconstructor {
    /// The held file size matches the held bytes.
    pub open spec fn wf(self) -> bool {
        self.filesize == self.bytes@.len()
    }

    /// A split is worth performing: the chunk size is positive and the file
    /// is strictly larger than one chunk.
    pub open spec fn spec_valid(self) -> bool {
        self.chunk_size > 0 && self.filesize > self.chunk_size
    }

    /// Prepares a split of `bytes`, scaling the caller's chunk size from
    /// mebibytes to bytes.
    pub fn new(filename: String, bytes: Vec<u8>, chunk_size: usize) -> (d: Deconstructor)
        requires
            chunk_size * MEBIBYTE_SIZE <= usize::MAX,
        ensures
            d.filename == filename,
            d.bytes == bytes,
            d.chunk_size == chunk_size * MEBIBYTE_SIZE,
            d.wf(),
    {
        let filesize = bytes.len();
        proof {
            assert(MEBIBYTE_SIZE * chunk_size == chunk_size * MEBIBYTE_SIZE) by (nonlinear_arith);
        }
        let chunk_size = MEBIBYTE_SIZE * chunk_size;
        Deconstructor { bytes, filename, filesize, chunk_size }
    }

    /// The split is only meaningful when the file is larger than one chunk;
    /// a chunk size of zero is likewise turned away.
    fn valid(&self) -> (r: bool)
        ensures
            r == self.spec_valid(),
    {
        self.chunk_size > 0 && self.filesize > self.chunk_size
    }

    /// Cuts the held bytes into the chunks of the plan: chunk `i` holds the
    /// bytes from `i * chunk_size` up to `min((i + 1) * chunk_size,
    /// filesize)`.
    fn create_chunks(&self) -> (chunks: Vec<Vec<u8>>)
        requires
            self.wf(),
            self.chunk_size > 0,
        ensures
            chunks.deep_view() == spec_chunks_of(self.bytes@, self.chunk_size as int),
    {
        let n = num_of_chunks(self.filesize, self.chunk_size);
        let mut chunks: Vec<Vec<u8>> = Vec::new();
        let mut i: usize = 0;
        while i < n
            invariant
                i <= n,
                self.wf(),
                self.chunk_size > 0,
                n == spec_num_chunks(self.filesize as int, self.chunk_size as int),
                chunks@.len() == i,
                forall|j: int|
                    0 <= j < i ==> chunks@[j]@ == spec_chunks_of(
                        self.bytes@,
                        self.chunk_size as int,
                    )[j],
            decreases n - i,
        {
            proof {
                lemma_chunk_start_in_range(self.filesize as int, self.chunk_size as int, i as int);
                lemma_chunk_len(self.filesize as int, self.chunk_size as int, i as int);
            }
            let start = i * self.chunk_size;
            let end = chunk_boundary(self.filesize, self.chunk_size, i);
            let piece = slice_to_vec(slice_subrange(self.bytes.as_slice(), start, end));
            chunks.push(piece);
            i = i + 1;
        }
        proof {
            assert(chunks.deep_view() =~~= spec_chunks_of(self.bytes@, self.chunk_size as int));
        }
        chunks
    }

    /// Splits the held file. On refusal nothing is produced, so the caller
    /// performs no write at all; otherwise every chunk of the plan comes back
    /// in order, together with the descriptor to persist after them.
    pub fn deconstruct(&self) -> (r: SplitOutcome)
        requires
            self.wf(),
        ensures
            r is Refused <==> !self.spec_valid(),
            r matches SplitOutcome::Split { chunks, metadata } ==> {
                &&& chunks.deep_view() == spec_chunks_of(self.bytes@, self.chunk_size as int)
                &&& metadata.filename == self.filename
                &&& metadata.filesize == self.filesize
                &&& metadata.chunk_size == self.chunk_size
                &&& metadata.num_of_chunks == spec_num_chunks(
                    self.filesize as int,
                    self.chunk_size as int,
                )
                &&& metadata.well_formed()
            },
    {
        if !self.valid() {
            return SplitOutcome::Refused;
        }
        let chunks = self.create_chunks();
        let num = num_of_chunks(self.filesize, self.chunk_size);
        let metadata = generate_metadata(
            self.filename.clone(),
            self.filesize,
            self.chunk_size,
            num,
        );
        SplitOutcome::Split { chunks, metadata }
    }
}

/// The split operation as one call, for callers that hold the file's bytes
/// and a chunk size in mebibytes.
pub struct Slicer;

impl Slicer {
    /// Prepares and performs a split of `bytes` in one step.
    pub fn deconstruct(filename: String, bytes: Vec<u8>, chunk_size: usize) -> (r: SplitOutcome)
        requires
            chunk_size * MEBIBYTE_SIZE <= usize::MAX,
        ensures
            r is Refused <==> !(chunk_size * MEBIBYTE_SIZE > 0 && bytes@.len() > chunk_size
                * MEBIBYTE_SIZE),
            r matches SplitOutcome::Split { chunks, metadata } ==> {
                &&& chunks.deep_view() == spec_chunks_of(
                    bytes@,
                    (chunk_size * MEBIBYTE_SIZE) as int,
                )
                &&& metadata.filename == filename
                &&& metadata.filesize == bytes@.len()
                &&& metadata.chunk_size == chunk_size * MEBIBYTE_SIZE
                &&& metadata.well_formed()
            },
    {
        let d = Deconstructor::new(filename, bytes, chunk_size);
        d.deconstruct()
    }
}

} // verus!
