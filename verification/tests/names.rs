use nofilelimit::naming::{
    METADATA_FILE_EXTENSION, chunk_filename, get_dir, has_metadata_extension, metadata_filename,
    to_decimal, to_ordinal,
};

#[test]
fn decimal_text_is_exact() {
    assert_eq!(to_decimal(0), "0");
    assert_eq!(to_decimal(7), "7");
    assert_eq!(to_decimal(10), "10");
    assert_eq!(to_decimal(105), "105");
    assert_eq!(to_decimal(10485760), "10485760");
}

#[test]
fn ordinals_are_zero_padded_to_two_digits() {
    assert_eq!(to_ordinal(1), "01");
    assert_eq!(to_ordinal(9), "09");
    assert_eq!(to_ordinal(10), "10");
    assert_eq!(to_ordinal(99), "99");
    assert_eq!(to_ordinal(100), "100");
}

#[test]
fn chunk_filenames_are_one_based() {
    assert_eq!(chunk_filename("file.bin", 0), "file.bin.01");
    assert_eq!(chunk_filename("file.bin", 8), "file.bin.09");
    assert_eq!(chunk_filename("file.bin", 9), "file.bin.10");
    assert_eq!(chunk_filename("file.bin", 11), "file.bin.12");
}

#[test]
fn descriptor_filename_uses_reserved_extension() {
    assert_eq!(METADATA_FILE_EXTENSION, "nfl");
    assert_eq!(metadata_filename("file.bin"), "file.bin.nfl");
}

#[test]
fn dispatch_recognises_descriptor_paths() {
    assert!(has_metadata_extension("file.bin.nfl"));
    assert!(has_metadata_extension("dir/file.bin.nfl"));
    assert!(!has_metadata_extension("file.bin"));
    assert!(!has_metadata_extension("file.nfl.bin"));
    assert!(!has_metadata_extension("nfl"));
}

#[test]
fn get_dir_strips_the_last_component() {
    assert_eq!(get_dir("a/b/c.nfl"), "a/b");
    assert_eq!(get_dir("a/c.nfl"), "a");
    assert_eq!(get_dir("c.nfl"), "");
    assert_eq!(get_dir("/c.nfl"), "");
}
