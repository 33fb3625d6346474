use eolconv::escape::writer;

#[test]
fn debug_escapes_line_break_bytes() {
    assert_eq!(writer(&b"a\r\nb".to_vec(), true), b"a\\r\\nb");
    assert_eq!(writer(&b"\n".to_vec(), true), b"\\n");
    assert_eq!(writer(&b"\r".to_vec(), true), b"\\r");
    assert_eq!(writer(&b"abc".to_vec(), true), b"abc");
    assert_eq!(writer(&b"".to_vec(), true), b"");
}

#[test]
fn without_debug_bytes_are_unchanged() {
    assert_eq!(writer(&b"a\r\nb".to_vec(), false), b"a\r\nb");
    assert_eq!(writer(&b"".to_vec(), false), b"");
}
