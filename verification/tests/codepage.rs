use ssredirector::codepage::{
    ansi_conversion_result, ansi_without_system, conversion_capacity, utf8_conversion_result,
    utf8_without_system,
};
use ssredirector::utf16::decode_utf16;

#[test]
fn empty_input_needs_no_system_call() {
    assert_eq!(ansi_without_system(""), Some(vec![]));
    assert_eq!(ansi_without_system("a"), None);
    assert_eq!(utf8_without_system(&[]).as_deref(), Some(""));
    assert_eq!(utf8_without_system(&[0x41]), None);
}

#[test]
fn measured_size_gives_capacity() {
    assert_eq!(conversion_capacity(0), None);
    assert_eq!(conversion_capacity(-5), None);
    assert_eq!(conversion_capacity(7), Some(7));
}

#[test]
fn converted_bytes_kept_on_success() {
    assert_eq!(ansi_conversion_result(0, vec![1, 2]), None);
    assert_eq!(ansi_conversion_result(2, vec![1, 2]), Some(vec![1, 2]));
}

#[test]
fn converted_text_decoded_strictly() {
    assert_eq!(utf8_conversion_result(0, &[0x41]), None);
    assert_eq!(utf8_conversion_result(1, &[0x41]).as_deref(), Some("A"));
    assert_eq!(utf8_conversion_result(1, &[0xD800]), None);
}

#[test]
fn strict_decode_agrees_with_std() {
    let cases: [&[u16]; 5] = [&[], &[0x61, 0xD83D, 0xDE00], &[0xD800], &[0xDC00, 0x41], &[0x41, 0xD83D]];
    for u in cases {
        assert_eq!(decode_utf16(u), String::from_utf16(u).ok());
    }
}
