//! The chunk plan: pure arithmetic mapping a file size and a chunk size to an
//! ordered list of byte ranges. The boundary of chunk `i` (0-based) is
//! `min((i + 1) * chunk_size, filesize)`; this one formula governs both the
//! splitter's write boundaries and the joiner's copy boundaries.

use vstd::prelude::*;

verus! {

use vstd::arithmetic::div_mod::lemma_fundamental_div_mod;
use vstd::arithmetic::div_mod::lemma_fundamental_div_mod_converse_div;
use vstd::math::min;

/// How many chunks a split produces: `filesize / chunk_size`, rounded up.
pub open spec fn spec_num_chunks(filesize: int, chunk_size: int) -> int
    recommends
        chunk_size > 0,
{
    if filesize % chunk_size == 0 {
        filesize / chunk_size
    } else {
        filesize / chunk_size + 1
    }
}

/// Where chunk `i` ends, as an offset into the file.
pub open spec fn spec_chunk_boundary(filesize: int, chunk_size: int, i: int) -> int
    recommends
        chunk_size > 0,
{
    min((i + 1) * chunk_size, filesize)
}

/// Where chunk `i` starts: every chunk before it is full-sized.
pub open spec fn spec_chunk_start(filesize: int, chunk_size: int, i: int) -> int
    recommends
        chunk_size > 0,
{
    i * chunk_size
}

/// How many bytes chunk `i` holds.
pub open spec fn spec_chunk_len(filesize: int, chunk_size: int, i: int) -> int
    recommends
        chunk_size > 0,
{
    spec_chunk_boundary(filesize, chunk_size, i) - spec_chunk_start(filesize, chunk_size, i)
}

/// The number of chunks is the rounded-up quotient, in its closed form
/// `(filesize + chunk_size - 1) / chunk_size`, and covers the file:
/// `num_chunks * chunk_size` reaches `filesize` but overshoots by less than
/// one whole chunk.
pub proof fn lemma_num_chunks_is_ceil(filesize: int, chunk_size: int)
    requires
        filesize >= 0,
        chunk_size > 0,
    ensures
        spec_num_chunks(filesize, chunk_size) == (filesize + chunk_size - 1) / chunk_size,
        spec_num_chunks(filesize, chunk_size) * chunk_size >= filesize,
        spec_num_chunks(filesize, chunk_size) * chunk_size < filesize + chunk_size,
        spec_num_chunks(filesize, chunk_size) >= 0,
        filesize > 0 ==> spec_num_chunks(filesize, chunk_size) >= 1,
{
    let q = filesize / chunk_size;
    let r = filesize % chunk_size;
    let n = spec_num_chunks(filesize, chunk_size);
    lemma_fundamental_div_mod(filesize, chunk_size);
    assert(q >= 0) by (nonlinear_arith)
        requires
            filesize == chunk_size * q + r,
            0 <= r < chunk_size,
            chunk_size > 0,
            filesize >= 0,
    ;
    if r == 0 {
        assert(q * chunk_size == chunk_size * q) by (nonlinear_arith);
        lemma_fundamental_div_mod_converse_div(
            filesize + chunk_size - 1,
            chunk_size,
            q,
            chunk_size - 1,
        );
        assert(filesize > 0 ==> q >= 1) by (nonlinear_arith)
            requires
                filesize == chunk_size * q,
                chunk_size > 0,
        ;
    } else {
        assert((q + 1) * chunk_size == chunk_size * q + chunk_size) by (nonlinear_arith);
        lemma_fundamental_div_mod_converse_div(
            filesize + chunk_size - 1,
            chunk_size,
            q + 1,
            r - 1,
        );
        assert(n * chunk_size == (q + 1) * chunk_size);
    }
}

/// Every chunk of the plan starts strictly inside the file.
pub proof fn lemma_chunk_start_in_range(filesize: int, chunk_size: int, i: int)
    requires
        filesize >= 0,
        chunk_size > 0,
        0 <= i < spec_num_chunks(filesize, chunk_size),
    ensures
        0 <= i * chunk_size < filesize,
{
    let q = filesize / chunk_size;
    let r = filesize % chunk_size;
    lemma_fundamental_div_mod(filesize, chunk_size);
    assert(0 <= i * chunk_size < filesize) by (nonlinear_arith)
        requires
            filesize == chunk_size * q + r,
            0 <= r < chunk_size,
            chunk_size > 0,
            0 <= i,
            r == 0 ==> i <= q - 1,
            r != 0 ==> i <= q,
    ;
}

/// The lengths of the plan's chunks: every chunk is exactly `chunk_size`
/// bytes except the last, which holds the remainder
/// `filesize - (num_chunks - 1) * chunk_size`, strictly more than zero and at
/// most `chunk_size`.
pub proof fn lemma_chunk_len(filesize: int, chunk_size: int, i: int)
    requires
        filesize >= 0,
        chunk_size > 0,
        0 <= i < spec_num_chunks(filesize, chunk_size),
    ensures
        i < spec_num_chunks(filesize, chunk_size) - 1 ==> spec_chunk_len(filesize, chunk_size, i)
            == chunk_size,
        i == spec_num_chunks(filesize, chunk_size) - 1 ==> spec_chunk_len(filesize, chunk_size, i)
            == filesize - i * chunk_size,
        0 < spec_chunk_len(filesize, chunk_size, i) <= chunk_size,
        spec_chunk_start(filesize, chunk_size, i) < spec_chunk_boundary(filesize, chunk_size, i)
            <= filesize,
{
    let n = spec_num_chunks(filesize, chunk_size);
    lemma_num_chunks_is_ceil(filesize, chunk_size);
    lemma_chunk_start_in_range(filesize, chunk_size, i);
    assert((i + 1) * chunk_size == i * chunk_size + chunk_size) by (nonlinear_arith);
    if i < n - 1 {
        lemma_chunk_start_in_range(filesize, chunk_size, i + 1);
    } else {
        assert(n * chunk_size == i * chunk_size + chunk_size) by (nonlinear_arith)
            requires
                n == i + 1,
        ;
    }
}

/// The split of a byte sequence into its planned chunks: chunk `i` holds the
/// bytes from its start up to its boundary.
pub open spec fn spec_chunks_of(bytes: Seq<u8>, chunk_size: int) -> Seq<Seq<u8>>
    recommends
        chunk_size > 0,
{
    Seq::new(
        spec_num_chunks(bytes.len() as int, chunk_size) as nat,
        |i: int|
            bytes.subrange(
                spec_chunk_start(bytes.len() as int, chunk_size, i),
                spec_chunk_boundary(bytes.len() as int, chunk_size, i),
            ),
    )
}

/// The total number of bytes a run of chunks holds.
pub open spec fn spec_sum_of_lens(chunks: Seq<Seq<u8>>) -> int
    decreases chunks.len(),
{
    if chunks.len() == 0 {
        0
    } else {
        spec_sum_of_lens(chunks.drop_last()) + chunks.last().len()
    }
}

/// Concatenating a run of chunks yields exactly as many bytes as the chunks
/// hold together.
pub proof fn lemma_sum_of_lens_is_flatten_len(chunks: Seq<Seq<u8>>)
    ensures
        spec_sum_of_lens(chunks) == chunks.flatten().len(),
    decreases chunks.len(),
{
    if chunks.len() == 0 {
        assert(chunks.flatten() =~= Seq::<u8>::empty());
    } else {
        lemma_sum_of_lens_is_flatten_len(chunks.drop_last());
        chunks.drop_last().lemma_flatten_push(chunks.last());
        assert(chunks.drop_last().push(chunks.last()) =~= chunks);
    }
}

/// Joining the first `k` chunks of a split reproduces the file up to the
/// `k`th boundary.
proof fn lemma_chunks_flatten_prefix(bytes: Seq<u8>, chunk_size: int, k: int)
    requires
        chunk_size > 0,
        0 <= k <= spec_num_chunks(bytes.len() as int, chunk_size),
    ensures
        spec_chunks_of(bytes, chunk_size).take(k).flatten() == bytes.subrange(
            0,
            min(k * chunk_size, bytes.len() as int),
        ),
    decreases k,
{
    let len = bytes.len() as int;
    let chunks = spec_chunks_of(bytes, chunk_size);
    if k == 0 {
        assert(chunks.take(0) =~= Seq::<Seq<u8>>::empty());
        assert(chunks.take(0).flatten() =~= bytes.subrange(0, 0));
    } else {
        lemma_chunks_flatten_prefix(bytes, chunk_size, k - 1);
        lemma_chunk_start_in_range(len, chunk_size, k - 1);
        lemma_chunk_len(len, chunk_size, k - 1);
        let start = (k - 1) * chunk_size;
        let boundary = spec_chunk_boundary(len, chunk_size, k - 1);
        assert(chunks.take(k) =~= chunks.take(k - 1).push(chunks[k - 1]));
        chunks.take(k - 1).lemma_flatten_push(chunks[k - 1]);
        assert(min((k - 1) * chunk_size, len) == start);
        assert(bytes.subrange(0, start) + bytes.subrange(start, boundary) =~= bytes.subrange(
            0,
            boundary,
        ));
        assert(boundary == min(k * chunk_size, len));
    }
}

/// Round trip: joining the chunks of a split, in order, reproduces the file
/// byte for byte.
pub proof fn lemma_join_of_split(bytes: Seq<u8>, chunk_size: int)
    requires
        bytes.len() > chunk_size > 0,
    ensures
        spec_chunks_of(bytes, chunk_size).flatten() == bytes,
{
    let len = bytes.len() as int;
    let n = spec_num_chunks(len, chunk_size);
    lemma_num_chunks_is_ceil(len, chunk_size);
    lemma_chunks_flatten_prefix(bytes, chunk_size, n);
    assert(spec_chunks_of(bytes, chunk_size).take(n) =~= spec_chunks_of(bytes, chunk_size));
    assert(bytes.subrange(0, len) =~= bytes);
}

/// The chunks of a completed split together hold exactly the file's bytes,
/// no more and no fewer.
pub proof fn lemma_chunk_sizes_sum_to_filesize(bytes: Seq<u8>, chunk_size: int)
    requires
        bytes.len() > chunk_size > 0,
    ensures
        spec_sum_of_lens(spec_chunks_of(bytes, chunk_size)) == bytes.len(),
{
    lemma_join_of_split(bytes, chunk_size);
    lemma_sum_of_lens_is_flatten_len(spec_chunks_of(bytes, chunk_size));
}

/// `filesize / chunk_size`, rounded up: how many chunk files a split of this
/// file will produce.
pub fn num_of_chunks(filesize: usize, chunk_size: usize) -> (n: usize)
    requires
        chunk_size > 0,
    ensures
        n == spec_num_chunks(filesize as int, chunk_size as int),
{
    let n: usize = filesize / chunk_size;
    if filesize % chunk_size != 0 {
        proof {
            lemma_fundamental_div_mod(filesize as int, chunk_size as int);
            assert(n < filesize) by (nonlinear_arith)
                requires
                    filesize == chunk_size * n + filesize as int % chunk_size as int,
                    filesize as int % chunk_size as int >= 1,
                    chunk_size >= 1,
                    n >= 0,
            ;
        }
        n + 1
    } else {
        n
    }
}

/// The end of chunk `i`: `min((i + 1) * chunk_size, filesize)`, computed
/// without overflow.
pub fn chunk_boundary(filesize: usize, chunk_size: usize, i: usize) -> (b: usize)
    requires
        chunk_size > 0,
        i < spec_num_chunks(filesize as int, chunk_size as int),
    ensures
        b == spec_chunk_boundary(filesize as int, chunk_size as int, i as int),
{
    let n = num_of_chunks(filesize, chunk_size);
    if i + 1 == n {
        proof {
            lemma_num_chunks_is_ceil(filesize as int, chunk_size as int);
        }
        filesize
    } else {
        proof {
            lemma_chunk_start_in_range(filesize as int, chunk_size as int, i as int + 1);
        }
        (i + 1) * chunk_size
    }
}

} // verus!
