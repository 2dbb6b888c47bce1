use ffbridge::marshal::{
    bytes_equal, content_bytes, copy_bytes, decode_buffer, decode_c_string, encode_c_string,
    STATUS_INTERNAL,
};

#[test]
fn encode_appends_terminator() {
    let encoded = encode_c_string("ab").unwrap();
    assert_eq!(encoded, vec![97u8, 98, 0]);
}

#[test]
fn encode_empty_string_is_just_terminator() {
    let encoded = encode_c_string("").unwrap();
    assert_eq!(encoded, vec![0u8]);
}

#[test]
fn encode_rejects_embedded_null() {
    let err = encode_c_string("a\u{0}b").unwrap_err();
    assert_eq!(err, STATUS_INTERNAL);
}

#[test]
fn encode_keeps_multibyte_text() {
    let encoded = encode_c_string("héllo").unwrap();
    let mut expected = "héllo".as_bytes().to_vec();
    expected.push(0);
    assert_eq!(encoded, expected);
}

#[test]
fn decode_reads_up_to_terminator() {
    let s = decode_c_string(&vec![104u8, 105, 0]);
    assert_eq!(s, "hi");
}

#[test]
fn decode_stops_at_first_null() {
    let s = decode_c_string(&vec![104u8, 0, 105, 0]);
    assert_eq!(s, "h");
}

#[test]
fn decode_without_terminator_reads_everything() {
    let s = decode_c_string(&vec![104u8, 105]);
    assert_eq!(s, "hi");
}

#[test]
fn decode_invalid_utf8_is_lossy_not_identity() {
    let s = decode_c_string(&vec![0xffu8, 0xfe]);
    assert_eq!(s, "\u{FFFD}\u{FFFD}");
}

#[test]
fn buffer_decode_truncates_at_terminator_not_reported_size() {
    // The reported size (5) is larger than the position of the first null
    // terminator (2): the decoded string stops at the terminator.
    let buf = vec![97u8, 98, 0, 99, 100];
    let s = decode_buffer(&buf, 5);
    assert_eq!(s, "ab");
}

#[test]
fn buffer_decode_uses_reported_size_without_terminator() {
    let buf = vec![97u8, 98, 99];
    let s = decode_buffer(&buf, 2);
    assert_eq!(s, "ab");
}

#[test]
fn buffer_decode_clamps_reported_size_to_buffer() {
    let buf = vec![97u8, 98];
    let s = decode_buffer(&buf, 10);
    assert_eq!(s, "ab");
}

#[test]
fn content_bytes_drops_terminator_and_tail() {
    let c = content_bytes(&vec![1u8, 2, 0, 3]);
    assert_eq!(c, vec![1u8, 2]);
}

#[test]
fn copy_and_compare_bytes() {
    let v = vec![1u8, 2, 3];
    let c = copy_bytes(&v);
    assert!(bytes_equal(&c, &v));
    assert!(!bytes_equal(&c, &vec![1u8, 2]));
}
