use nofilelimit::deconstructor::{Deconstructor, Slicer, SplitOutcome};
use nofilelimit::metadata::MEBIBYTE_SIZE;
use nofilelimit::plan::{chunk_boundary, num_of_chunks};

fn patterned(len: usize) -> Vec<u8> {
    let mut v = Vec::with_capacity(len);
    for i in 0..len {
        v.push((i % 251) as u8);
    }
    v
}

#[test]
fn num_of_chunks_rounds_up() {
    assert_eq!(num_of_chunks(10, 3), 4);
    assert_eq!(num_of_chunks(10, 5), 2);
    assert_eq!(num_of_chunks(9, 10), 1);
    assert_eq!(num_of_chunks(1, 1), 1);
    assert_eq!(num_of_chunks(0, 4), 0);
    assert_eq!(num_of_chunks(10 * MEBIBYTE_SIZE, 4 * MEBIBYTE_SIZE), 3);
}

#[test]
fn chunk_boundaries_follow_the_plan() {
    // 10 bytes in chunks of 3: boundaries at 3, 6, 9, 10.
    assert_eq!(chunk_boundary(10, 3, 0), 3);
    assert_eq!(chunk_boundary(10, 3, 1), 6);
    assert_eq!(chunk_boundary(10, 3, 2), 9);
    assert_eq!(chunk_boundary(10, 3, 3), 10);
}

#[test]
fn split_produces_planned_chunks() {
    let bytes = patterned(10);
    let d = Deconstructor {
        bytes: bytes.clone(),
        filename: String::from("data.bin"),
        filesize: 10,
        chunk_size: 3,
    };
    match d.deconstruct() {
        SplitOutcome::Split { chunks, metadata } => {
            assert_eq!(chunks.len(), 4);
            assert_eq!(chunks[0], &bytes[0..3]);
            assert_eq!(chunks[1], &bytes[3..6]);
            assert_eq!(chunks[2], &bytes[6..9]);
            assert_eq!(chunks[3], &bytes[9..10]);
            assert_eq!(metadata.filename, "data.bin");
            assert_eq!(metadata.filesize, 10);
            assert_eq!(metadata.chunk_size, 3);
            assert_eq!(metadata.num_of_chunks, 4);
        }
        SplitOutcome::Refused => panic!("a file larger than one chunk must be split"),
    }
}

#[test]
fn split_refuses_small_file() {
    // A file no larger than the chunk size is left alone: no chunks, no
    // descriptor, nothing for the caller to write.
    let d = Deconstructor::new(String::from("small.bin"), patterned(5), 1);
    assert!(matches!(d.deconstruct(), SplitOutcome::Refused));
}

#[test]
fn split_refuses_file_equal_to_chunk_size() {
    let d = Deconstructor {
        bytes: patterned(7),
        filename: String::from("same.bin"),
        filesize: 7,
        chunk_size: 7,
    };
    assert!(matches!(d.deconstruct(), SplitOutcome::Refused));
}

#[test]
fn new_scales_chunk_size_to_bytes() {
    let d = Deconstructor::new(String::from("big.bin"), patterned(64), 2);
    assert_eq!(d.chunk_size, 2 * MEBIBYTE_SIZE);
    assert_eq!(d.filesize, 64);
    assert_eq!(d.filename, "big.bin");
}

#[test]
fn slicer_splits_in_one_call() {
    let len = 2 * MEBIBYTE_SIZE + 10;
    let bytes = patterned(len);
    match Slicer::deconstruct(String::from("one.bin"), bytes, 1) {
        SplitOutcome::Split { chunks, metadata } => {
            assert_eq!(chunks.len(), 3);
            assert_eq!(chunks[0].len(), MEBIBYTE_SIZE);
            assert_eq!(chunks[1].len(), MEBIBYTE_SIZE);
            assert_eq!(chunks[2].len(), 10);
            assert_eq!(metadata.chunk_size, MEBIBYTE_SIZE);
            assert_eq!(metadata.filesize, len);
            assert_eq!(metadata.num_of_chunks, 3);
        }
        SplitOutcome::Refused => panic!("a file larger than one chunk must be split"),
    }
}

#[test]
fn chunk_sizes_sum_to_filesize() {
    let bytes = patterned(1000);
    let d = Deconstructor {
        bytes,
        filename: String::from("sum.bin"),
        filesize: 1000,
        chunk_size: 37,
    };
    match d.deconstruct() {
        SplitOutcome::Split { chunks, .. } => {
            let total: usize = chunks.iter().map(|c| c.len()).sum();
            assert_eq!(total, 1000);
            // Every chunk but the last is full-sized; the last holds the rest.
            for c in &chunks[..chunks.len() - 1] {
                assert_eq!(c.len(), 37);
            }
            assert_eq!(chunks[chunks.len() - 1].len(), 1000 - (chunks.len() - 1) * 37);
        }
        SplitOutcome::Refused => panic!("a file larger than one chunk must be split"),
    }
}
