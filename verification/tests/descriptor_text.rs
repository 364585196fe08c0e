use nofilelimit::descriptor::{encode_metadata, is_clean_filename, read_metadata};
use nofilelimit::metadata::generate_metadata;

#[test]
fn encode_writes_canonical_text() {
    let m = generate_metadata(String::from("data.bin"), 10485760, 4194304, 3);
    assert_eq!(
        encode_metadata(&m),
        "filename = \"data.bin\"\nfilesize = 10485760\nchunk_size = 4194304\nnum_of_chunks = 3\n"
    );
}

#[test]
fn parse_reads_canonical_text() {
    let text =
        "filename = \"data.bin\"\nfilesize = 10485760\nchunk_size = 4194304\nnum_of_chunks = 3\n";
    let m = read_metadata(text).expect("canonical descriptor text must parse");
    assert_eq!(m.filename, "data.bin");
    assert_eq!(m.filesize, 10485760);
    assert_eq!(m.chunk_size, 4194304);
    assert_eq!(m.num_of_chunks, 3);
}

#[test]
fn descriptor_survives_round_trip() {
    let m = generate_metadata(String::from("archive.tar.gz"), 999, 100, 10);
    let n = read_metadata(encode_metadata(&m).as_str()).expect("an encoded descriptor must parse");
    assert_eq!(n.filename, m.filename);
    assert_eq!(n.filesize, m.filesize);
    assert_eq!(n.chunk_size, m.chunk_size);
    assert_eq!(n.num_of_chunks, m.num_of_chunks);
}

#[test]
fn parse_rejects_malformed_text() {
    assert!(read_metadata("").is_none());
    assert!(read_metadata("filename = \"a\"").is_none());
    assert!(read_metadata("filename = \"a\"\n").is_none());
    assert!(read_metadata("filename = a\nfilesize = 1\nchunk_size = 1\nnum_of_chunks = 1\n")
        .is_none());
    assert!(read_metadata("filename = \"a\"\nfilesize = x\nchunk_size = 1\nnum_of_chunks = 1\n")
        .is_none());
    assert!(read_metadata("filename = \"a\"\nfilesize = \nchunk_size = 1\nnum_of_chunks = 1\n")
        .is_none());
    assert!(read_metadata("filesize = 1\nfilename = \"a\"\nchunk_size = 1\nnum_of_chunks = 1\n")
        .is_none());
    // Trailing text after the last line is not a descriptor.
    assert!(read_metadata(
        "filename = \"a\"\nfilesize = 1\nchunk_size = 1\nnum_of_chunks = 1\nextra\n"
    )
    .is_none());
}

#[test]
fn parse_rejects_oversized_values() {
    let text = "filename = \"a\"\nfilesize = 99999999999999999999999999\nchunk_size = 1\nnum_of_chunks = 1\n";
    assert!(read_metadata(text).is_none());
}

#[test]
fn clean_filenames_carry_through() {
    assert!(is_clean_filename("data.bin"));
    assert!(is_clean_filename("weird name (1).tar.gz"));
    assert!(!is_clean_filename("has\"quote"));
    assert!(!is_clean_filename("has\nnewline"));
}
