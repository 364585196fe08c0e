use nofilelimit::deconstructor::{Deconstructor, SplitOutcome};
use nofilelimit::glue::{Glue, JoinOutcome, all_chunks_exist};
use nofilelimit::metadata::{MEBIBYTE_SIZE, generate_metadata};

fn patterned(len: usize) -> Vec<u8> {
    let mut v = Vec::with_capacity(len);
    for i in 0..len {
        v.push((i % 251) as u8);
    }
    v
}

#[test]
fn all_chunks_exist_requires_every_flag() {
    let m = generate_metadata(String::from("a.bin"), 10, 3, 2);
    assert!(all_chunks_exist(&m, &vec![true, true]));
    assert!(!all_chunks_exist(&m, &vec![true, false]));
    let empty = generate_metadata(String::from("a.bin"), 0, 3, 0);
    assert!(all_chunks_exist(&empty, &vec![]));
}

#[test]
fn join_reverses_split() {
    let bytes = patterned(1000);
    let d = Deconstructor {
        bytes: bytes.clone(),
        filename: String::from("data.bin"),
        filesize: 1000,
        chunk_size: 37,
    };
    let (chunks, metadata) = match d.deconstruct() {
        SplitOutcome::Split { chunks, metadata } => (chunks, metadata),
        SplitOutcome::Refused => panic!("a file larger than one chunk must be split"),
    };
    let loaded: Vec<Option<Vec<u8>>> = chunks.into_iter().map(Some).collect();
    match Glue::reconstruct(&metadata, &loaded, false) {
        JoinOutcome::Joined { bytes: joined, discard } => {
            assert_eq!(joined, bytes);
            assert_eq!(discard.len(), metadata.num_of_chunks + 1);
        }
        _ => panic!("a complete, well-sized chunk set must join"),
    }
}

#[test]
fn missing_chunks_reported_with_counts() {
    // Expected 3, found 2: the merge never starts and no output exists.
    let m = generate_metadata(String::from("gone.bin"), 30, 10, 3);
    let loaded = vec![Some(patterned(10)), Some(patterned(10)), None];
    match Glue::reconstruct(&m, &loaded, false) {
        JoinOutcome::MissingChunks { found, expected } => {
            assert_eq!(found, 2);
            assert_eq!(expected, 3);
        }
        _ => panic!("an incomplete chunk set must be turned away"),
    }
}

#[test]
fn size_mismatch_discards_output_and_keeps_chunks() {
    // The chunks sum to 25 bytes but the descriptor records 30: no bytes come
    // back, and the loaded chunks stay untouched for a retry.
    let m = generate_metadata(String::from("short.bin"), 30, 10, 3);
    let loaded = vec![Some(patterned(10)), Some(patterned(10)), Some(patterned(5))];
    match Glue::reconstruct(&m, &loaded, false) {
        JoinOutcome::SizeMismatch => {}
        _ => panic!("a chunk set of the wrong total size must be turned away"),
    }
    assert_eq!(loaded.len(), 3);
    assert_eq!(loaded[2].as_ref().unwrap().len(), 5);
}

#[test]
fn join_orders_chunks_by_ordinal() {
    let m = generate_metadata(String::from("ord.bin"), 6, 2, 3);
    let loaded = vec![Some(vec![1u8, 2]), Some(vec![3u8, 4]), Some(vec![5u8, 6])];
    match Glue::reconstruct(&m, &loaded, true) {
        JoinOutcome::Joined { bytes, discard } => {
            assert_eq!(bytes, vec![1, 2, 3, 4, 5, 6]);
            assert_eq!(discard.len(), 0);
        }
        _ => panic!("a complete, well-sized chunk set must join"),
    }
}

#[test]
fn cleanup_plan_names_chunks_then_descriptor() {
    let m = generate_metadata(String::from("tidy.bin"), 6, 2, 3);
    let loaded = vec![Some(vec![1u8, 2]), Some(vec![3u8, 4]), Some(vec![5u8, 6])];
    match Glue::reconstruct(&m, &loaded, false) {
        JoinOutcome::Joined { discard, .. } => {
            assert_eq!(
                discard,
                vec!["tidy.bin.01", "tidy.bin.02", "tidy.bin.03", "tidy.bin.nfl"]
            );
        }
        _ => panic!("a complete, well-sized chunk set must join"),
    }
}

#[test]
fn empty_chunk_set_joins_to_empty_file() {
    let m = generate_metadata(String::from("void.bin"), 0, 4, 0);
    match Glue::reconstruct(&m, &vec![], false) {
        JoinOutcome::Joined { bytes, discard } => {
            assert_eq!(bytes.len(), 0);
            assert_eq!(discard, vec!["void.bin.nfl"]);
        }
        _ => panic!("an empty chunk set sums to an empty file"),
    }
}

#[test]
fn empty_chunk_set_cannot_fill_a_nonempty_file() {
    let m = generate_metadata(String::from("void.bin"), 9, 4, 0);
    assert!(matches!(
        Glue::reconstruct(&m, &vec![], false),
        JoinOutcome::SizeMismatch
    ));
}

#[test]
fn ten_mebibyte_scenario() {
    // 10 MiB split at 4 MiB: exactly three chunks of 4 MiB, 4 MiB and 2 MiB,
    // a descriptor recording three chunks, and a byte-identical
    // reconstruction that releases all three chunks plus the descriptor.
    let len = 10 * MEBIBYTE_SIZE;
    let bytes = patterned(len);
    let d = Deconstructor::new(String::from("movie.mkv"), bytes.clone(), 4);
    let (chunks, metadata) = match d.deconstruct() {
        SplitOutcome::Split { chunks, metadata } => (chunks, metadata),
        SplitOutcome::Refused => panic!("a file larger than one chunk must be split"),
    };
    assert_eq!(chunks.len(), 3);
    assert_eq!(chunks[0].len(), 4 * MEBIBYTE_SIZE);
    assert_eq!(chunks[1].len(), 4 * MEBIBYTE_SIZE);
    assert_eq!(chunks[2].len(), 2 * MEBIBYTE_SIZE);
    assert_eq!(metadata.num_of_chunks, 3);
    assert_eq!(metadata.filesize, len);
    assert_eq!(metadata.chunk_size, 4 * MEBIBYTE_SIZE);

    let loaded: Vec<Option<Vec<u8>>> = chunks.into_iter().map(Some).collect();
    match Glue::reconstruct(&metadata, &loaded, false) {
        JoinOutcome::Joined { bytes: joined, discard } => {
            assert_eq!(joined, bytes);
            assert_eq!(
                discard,
                vec!["movie.mkv.01", "movie.mkv.02", "movie.mkv.03", "movie.mkv.nfl"]
            );
        }
        _ => panic!("a complete, well-sized chunk set must join"),
    }
}
