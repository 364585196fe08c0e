//! The joiner: checks that every expected chunk is present, merges the
//! chunks back together in order, verifies the total against the descriptor,
//! and plans the cleanup. The surrounding binary probes the disk, loads the
//! chunk files, writes the output and deletes what the joiner tells it to.

use vstd::prelude::*;

verus! {

use crate::metadata::Metadata;
use crate::naming::{
    chunk_filename, metadata_filename, spec_chunk_filename, spec_metadata_filename,
};
use crate::plan::{
    lemma_chunk_sizes_sum_to_filesize, lemma_join_of_split, spec_chunks_of, spec_sum_of_lens,
};

/// What a reconstruction request came to. An I/O failure while reading or
/// writing is the caller's to report; it cannot arise here.
pub enum JoinOutcome {
    /// Not every expected chunk is present: nothing is merged, no output is
    /// to be created, and the counts are reported to the user.
    MissingChunks { found: usize, expected: usize },
    /// The chunks together hold a different number of bytes than the
    /// descriptor records: the merged output is to be discarded, while the
    /// chunks and the descriptor stay in place for a retry.
    SizeMismatch,
    /// The reconstructed file, byte for byte, and the files to delete now
    /// that they are no longer needed (none when cleanup was suppressed).
    Joined { bytes: Vec<u8>, discard: Vec<String> },
}

/// True when every chunk slot is filled.
pub open spec fn spec_all_present(chunks: Seq<Option<Vec<u8>>>) -> bool {
    forall|i: int| 0 <= i < chunks.len() ==> chunks[i] is Some
}

/// How many chunk slots are filled.
pub open spec fn spec_found_count(chunks: Seq<Option<Vec<u8>>>) -> int
    decreases chunks.len(),
{
    if chunks.len() == 0 {
        0
    } else {
        spec_found_count(chunks.drop_last()) + if chunks.last() is Some {
            1int
        } else {
            0int
        }
    }
}

/// The bytes of the filled chunk slots, in order.
pub open spec fn spec_contents(chunks: Seq<Option<Vec<u8>>>) -> Seq<Seq<u8>>
    recommends
        spec_all_present(chunks),
{
    Seq::new(chunks.len(), |i: int| chunks[i]->0@)
}

/// A run of chunks holds at least as many bytes as any prefix of it.
proof fn lemma_sum_of_lens_monotonic(chunks: Seq<Seq<u8>>, k: int)
    requires
        0 <= k <= chunks.len(),
    ensures
        spec_sum_of_lens(chunks.take(k)) <= spec_sum_of_lens(chunks),
    decreases chunks.len() - k,
{
    if k == chunks.len() {
        assert(chunks.take(k) =~= chunks);
    } else {
        lemma_sum_of_lens_monotonic(chunks, k + 1);
        assert(chunks.take(k + 1).drop_last() =~= chunks.take(k));
        assert(spec_sum_of_lens(chunks.take(k + 1)) == spec_sum_of_lens(chunks.take(k))
            + chunks[k].len());
    }
}

/// Tests whether every expected chunk file was found, given one presence
/// flag per ordinal.
pub fn all_chunks_exist(metadata: &Metadata, present: &Vec<bool>) -> (r: bool)
    requires
        present@.len() == metadata.num_of_chunks,
    ensures
        r == (forall|i: int| 0 <= i < present@.len() ==> present@[i]),
{
    let mut i: usize = 0;
    while i < present.len()
        invariant
            i <= present@.len(),
            forall|j: int| 0 <= j < i ==> present@[j],
        decreases present@.len() - i,
    {
        if !present[i] {
            return false;
        }
        i = i + 1;
    }
    true
}

/// The joining side of the pair: everything between reading the descriptor
/// and writing the output back out.
pub struct Glue;

impl Glue {
    /// Reconstructs the original file from the loaded chunks, one slot per
    /// ordinal with `None` where the chunk file is absent.
    ///
    /// The merge happens only when every chunk is present; the merged bytes
    /// are handed back only when they sum to exactly the descriptor's file
    /// size; and only then does the outcome carry the chunk files and the
    /// descriptor file to delete, unless `no_cleanup` suppressed that.
    pub fn reconstruct(metadata: &Metadata, chunks: &Vec<Option<Vec<u8>>>, no_cleanup: bool) -> (r:
        JoinOutcome)
        requires
            chunks@.len() == metadata.num_of_chunks,
        ensures
            r is MissingChunks <==> !spec_all_present(chunks@),
            r matches JoinOutcome::MissingChunks { found, expected } ==> found == spec_found_count(
                chunks@,
            ) && expected == metadata.num_of_chunks,
            r is SizeMismatch <==> spec_all_present(chunks@) && spec_sum_of_lens(
                spec_contents(chunks@),
            ) != metadata.filesize,
            r is Joined <==> spec_all_present(chunks@) && spec_sum_of_lens(spec_contents(chunks@))
                == metadata.filesize,
            r matches JoinOutcome::Joined { bytes, discard } ==> {
                &&& bytes@ == spec_contents(chunks@).flatten()
                &&& bytes@.len() == metadata.filesize
                &&& no_cleanup ==> discard@.len() == 0
                &&& !no_cleanup ==> {
                    &&& discard@.len() == metadata.num_of_chunks + 1
                    &&& forall|i: int|
                        0 <= i < metadata.num_of_chunks ==> discard@[i]@ == spec_chunk_filename(
                            metadata.filename@,
                            i,
                        )
                    &&& discard@[metadata.num_of_chunks as int]@ == spec_metadata_filename(
                        metadata.filename@,
                    )
                }
            },
    {
        let n = chunks.len();

        // Completeness check: every ordinal must have its chunk.
        let mut found: usize = 0;
        let mut i: usize = 0;
        while i < n
            invariant
                i <= n,
                n == chunks@.len(),
                found == spec_found_count(chunks@.take(i as int)),
                found <= i,
            decreases n - i,
        {
            proof {
                assert(chunks@.take(i + 1).drop_last() =~= chunks@.take(i as int));
            }
            if chunks[i].is_some() {
                found = found + 1;
            }
            i = i + 1;
        }
        proof {
            assert(chunks@.take(n as int) =~= chunks@);
        }
        if found < n {
            proof {
                lemma_found_count_all_present(chunks@);
            }
            return JoinOutcome::MissingChunks { found, expected: n };
        }
        proof {
            lemma_found_count_all_present(chunks@);
        }

        // Integrity check: the chunks must sum to exactly the recorded size.
        let ghost contents = spec_contents(chunks@);
        let mut total: usize = 0;
        let mut fits = true;
        let mut i: usize = 0;
        while i < n
            invariant
                i <= n,
                n == chunks@.len(),
                spec_all_present(chunks@),
                contents == spec_contents(chunks@),
                fits ==> total == spec_sum_of_lens(contents.take(i as int)) && total
                    <= metadata.filesize,
                !fits ==> spec_sum_of_lens(contents) > metadata.filesize,
            decreases n - i,
        {
            proof {
                assert(contents.take(i + 1).drop_last() =~= contents.take(i as int));
            }
            let chunk_len = match &chunks[i] {
                Some(c) => c.len(),
                None => 0,
            };
            if fits && chunk_len <= metadata.filesize - total {
                total = total + chunk_len;
            } else if fits {
                proof {
                    lemma_sum_of_lens_monotonic(contents, i + 1);
                }
                fits = false;
            }
            i = i + 1;
        }
        proof {
            assert(contents.take(n as int) =~= contents);
        }
        if !fits || total != metadata.filesize {
            return JoinOutcome::SizeMismatch;
        }

        // Merge: concatenate the chunks in ascending ordinal order.
        let mut bytes: Vec<u8> = Vec::new();
        let mut i: usize = 0;
        while i < n
            invariant
                i <= n,
                n == chunks@.len(),
                spec_all_present(chunks@),
                contents == spec_contents(chunks@),
                bytes@ == contents.take(i as int).flatten(),
            decreases n - i,
        {
            proof {
                assert(contents.take(i + 1) =~= contents.take(i as int).push(contents[i as int]));
                contents.take(i as int).lemma_flatten_push(contents[i as int]);
            }
            match &chunks[i] {
                Some(c) => {
                    bytes.extend_from_slice(c.as_slice());
                },
                None => {
                    proof {
                        assert(false);
                    }
                },
            }
            i = i + 1;
        }
        proof {
            assert(contents.take(n as int) =~= contents);
            crate::plan::lemma_sum_of_lens_is_flatten_len(contents);
        }

        // Cleanup plan: the chunk files first, the descriptor last.
        let mut discard: Vec<String> = Vec::new();
        if !no_cleanup {
            let mut i: usize = 0;
            while i < n
                invariant
                    i <= n,
                    n == chunks@.len(),
                    n == metadata.num_of_chunks,
                    discard@.len() == i,
                    forall|j: int|
                        0 <= j < i ==> discard@[j]@ == spec_chunk_filename(metadata.filename@, j),
                decreases n - i,
            {
                discard.push(chunk_filename(metadata.filename.as_str(), i));
                i = i + 1;
            }
            discard.push(metadata_filename(metadata.filename.as_str()));
        }
        JoinOutcome::Joined { bytes, discard }
    }
}

/// Round trip: when every slot holds its chunk of a split of `bytes`, and
/// the descriptor records that file's length, the join is owed to succeed
/// and to reproduce `bytes` exactly — together with `reconstruct`'s
/// contract, the reconstructed file of a completed split is the original,
/// byte for byte.
pub proof fn lemma_join_restores_split(
    bytes: Seq<u8>,
    chunk_size: int,
    chunks: Seq<Option<Vec<u8>>>,
)
    requires
        bytes.len() > chunk_size > 0,
        chunks.len() == spec_chunks_of(bytes, chunk_size).len(),
        forall|i: int| #![trigger chunks[i]]
            0 <= i < chunks.len() ==> chunks[i] is Some && chunks[i]->0@ == spec_chunks_of(
                bytes,
                chunk_size,
            )[i],
    ensures
        spec_all_present(chunks),
        spec_contents(chunks) == spec_chunks_of(bytes, chunk_size),
        spec_sum_of_lens(spec_contents(chunks)) == bytes.len(),
        spec_contents(chunks).flatten() == bytes,
{
    assert forall|i: int|
        0 <= i < chunks.len() implies spec_contents(chunks)[i] == spec_chunks_of(
        bytes,
        chunk_size,
    )[i] by {
        assert(chunks[i] is Some && chunks[i]->0@ == spec_chunks_of(bytes, chunk_size)[i]);
    }
    assert(spec_contents(chunks) =~= spec_chunks_of(bytes, chunk_size));
    lemma_chunk_sizes_sum_to_filesize(bytes, chunk_size);
    lemma_join_of_split(bytes, chunk_size);
}

/// Every slot is filled exactly when the filled slots number all of them.
proof fn lemma_found_count_all_present(chunks: Seq<Option<Vec<u8>>>)
    ensures
        0 <= spec_found_count(chunks) <= chunks.len(),
        spec_all_present(chunks) <==> spec_found_count(chunks) == chunks.len(),
    decreases chunks.len(),
{
    if chunks.len() > 0 {
        lemma_found_count_all_present(chunks.drop_last());
        if spec_found_count(chunks) == chunks.len() {
            assert(forall|i: int|
                0 <= i < chunks.len() - 1 ==> chunks[i] == chunks.drop_last()[i]);
        }
        if spec_all_present(chunks) {
            assert(spec_all_present(chunks.drop_last()));
        }
    }
}

} // verus!
