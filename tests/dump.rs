use rust_v7_lib::dump::{
    write_ascii_chars, write_chunk, write_dec_words, write_hex_words, write_oct_bytes,
    write_oct_words, DumpFormat,
};
use rust_v7_lib::number::push_padded;

fn text(v: &[u8]) -> String {
    String::from_utf8(v.to_vec()).unwrap()
}

#[test]
fn oct_bytes_line() {
    let mut out = Vec::new();
    assert_eq!(write_oct_bytes(&mut out, &[0, 8, 255]), 3);
    assert_eq!(text(&out), " 000 010 377\n");
}

#[test]
fn empty_chunk_is_bare_line_end() {
    let mut out = Vec::new();
    assert_eq!(write_oct_bytes(&mut out, &[]), 0);
    assert_eq!(text(&out), "\n");
}

#[test]
fn word_lines_are_little_endian() {
    let data = [1u8, 2, 255, 255];
    let mut out = Vec::new();
    assert_eq!(write_oct_words(&mut out, &data), 4);
    assert_eq!(write_dec_words(&mut out, &data), 4);
    assert_eq!(write_hex_words(&mut out, &data), 4);
    assert_eq!(
        text(&out),
        "  001001  177777\n  000513  065535\n  000201  00ffff\n"
    );
}

#[test]
fn ascii_line_escapes_and_octal() {
    let mut out = Vec::new();
    let data = [7u8, 8, 9, 10, 11, 12, 13, 65, 0, 200, 127, 32, 126];
    assert_eq!(write_ascii_chars(&mut out, &data), data.len());
    assert_eq!(
        text(&out),
        " \\g \\b \\t \\n \\v \\f \\r   A 000 310 177       ~\n"
    );
}

#[test]
fn chunk_lines_with_offset_heading() {
    let mut out = Vec::new();
    let next = write_chunk(&mut out, 0o20, &[65, 66], &[DumpFormat::OctBytes, DumpFormat::Ascii]);
    assert_eq!(next, 0o20 + 4);
    assert_eq!(text(&out), "0000020 101 102\n          A   B\n");
}

#[test]
fn chunk_with_no_format_writes_nothing() {
    let mut out = Vec::new();
    assert_eq!(write_chunk(&mut out, 5, &[1, 2], &[]), 5);
    assert!(out.is_empty());
}

#[test]
fn padded_numbers() {
    let mut out = Vec::new();
    push_padded(&mut out, 0, 8, 3, b'0');
    push_padded(&mut out, 255, 16, 1, b' ');
    push_padded(&mut out, 42, 10, 5, b' ');
    push_padded(&mut out, u64::MAX, 16, 0, b'0');
    assert_eq!(text(&out), "000ff   42ffffffffffffffff");
}
