use comptime::naming::{content_hash, hex16, source_file_name};

#[test]
fn hash_of_empty_is_offset_basis() {
    assert_eq!(content_hash(""), 0xcbf29ce484222325);
}

#[test]
fn hash_of_one_character() {
    assert_eq!(content_hash("a"), 0xaf63dc4c8601ec8c);
}

#[test]
fn hash_of_expression_body() {
    assert_eq!(content_hash("1 + 2 * 3"), 0x313028236a22dda4);
}

#[test]
fn hex_is_fixed_width() {
    assert_eq!(hex16(0), "0000000000000000");
    assert_eq!(hex16(0x1a2b), "0000000000001a2b");
    assert_eq!(hex16(u64::MAX), "ffffffffffffffff");
}

#[test]
fn source_file_name_shape() {
    let name = source_file_name("1 + 2 * 3", 42);
    assert!(name.starts_with("comptime-"));
    assert!(name.ends_with(".rs"));
    assert_eq!(name.len(), "comptime-".len() + 32 + ".rs".len());
}

#[test]
fn distinct_bodies_same_stamp_never_collide() {
    let a = source_file_name("1 + 1", 42);
    let b = source_file_name("2 + 2", 42);
    assert_ne!(a, b);
}

#[test]
fn same_body_distinct_stamps_never_collide() {
    let a = source_file_name("1 + 1", 1);
    let b = source_file_name("1 + 1", 2);
    assert_ne!(a, b);
}
