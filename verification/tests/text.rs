use certflow::text::{append_bytes, clone_byte_rows, clone_bytes, clone_strings};

#[test]
fn copies_are_equal() {
    let strings = vec!["a".to_string(), "".to_string(), "\u{e9}".to_string()];
    assert_eq!(clone_strings(&strings), strings);
    assert_eq!(clone_strings(&Vec::new()), Vec::<String>::new());
    let bytes = vec![0u8, 255, 7];
    assert_eq!(clone_bytes(&bytes), bytes);
    let rows = vec![vec![1u8, 2], Vec::new(), vec![3u8]];
    assert_eq!(clone_byte_rows(&rows), rows);
}

#[test]
fn bytes_are_appended() {
    let mut bytes = vec![1u8, 2];
    append_bytes(&mut bytes, &[3, 4, 5]);
    append_bytes(&mut bytes, &[]);
    assert_eq!(bytes, vec![1, 2, 3, 4, 5]);
}
