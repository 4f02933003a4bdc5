use ssredirector::scan::{
    hex_byte, image_size_from_headers, parse_pattern, Scan, U2_PATTERN, U3_PATTERN,
};
use ssredirector::text::chars_of;

#[test]
fn parses_bytes_wildcards_and_skips_junk() {
    assert_eq!(
        parse_pattern(" 48 ?? zz +1F 100 4? \t0a"),
        vec![Some(0x48), None, Some(0x1F), None, Some(0x0A)]
    );
    assert_eq!(parse_pattern(""), vec![]);
    assert_eq!(parse_pattern("   "), vec![]);
}

#[test]
fn hex_byte_agrees_with_std() {
    for t in ["0", "ff", "FF", "+7f", "100", "", "+", "-1", "0x1", "00ff", "g"] {
        assert_eq!(hex_byte(&chars_of(t)), u8::from_str_radix(t, 16).ok(), "{}", t);
    }
}

#[test]
fn known_patterns_parse() {
    assert_eq!(parse_pattern(U2_PATTERN).len(), 38);
    assert_eq!(parse_pattern(U3_PATTERN).len(), 46);
}

#[test]
fn scan_finds_first_match() {
    let image = [0x00, 0x48, 0x8B, 0x48, 0x8B, 0x05, 0x00, 0x00];
    assert_eq!(Scan(0x1000, &image, "48 8B"), 0x1001);
    assert_eq!(Scan(0x1000, &image, "48 ?? 05"), 0x1003);
    assert_eq!(Scan(0x1000, &image, "99"), 0);
}

#[test]
fn scan_of_missing_module_or_empty_pattern_is_zero() {
    let image = [1, 2, 3];
    assert_eq!(Scan(0, &image, "01"), 0);
    assert_eq!(Scan(0x1000, &image, "zz"), 0);
}

#[test]
fn scan_does_not_try_last_offset() {
    let image = [0x00, 0x00, 0xAB];
    assert_eq!(Scan(0x1000, &image, "AB"), 0);
    assert_eq!(Scan(0x1000, &image, "00 AB"), 0);
    assert_eq!(Scan(0x1000, &image, "00"), 0x1000);
}

#[test]
fn reads_size_of_image() {
    let mut headers = vec![0u8; 0x200];
    headers[0x3C] = 0x80;
    headers[0x80 + 0x50] = 0x00;
    headers[0x80 + 0x51] = 0x30;
    headers[0x80 + 0x52] = 0x02;
    headers[0x80 + 0x53] = 0x00;
    assert_eq!(image_size_from_headers(&headers), Some(0x23000));
    assert_eq!(image_size_from_headers(&headers[..0x40]), None);
    headers[0x3F] = 0x80;
    assert_eq!(image_size_from_headers(&headers), None);
}

#[test]
fn wildcard_finds_same_or_earlier() {
    let image = [0x48, 0x00, 0x05, 0x48, 0x8B, 0x05, 0x00];
    let exact = Scan(0x10, &image, "48 8B 05");
    let loose = Scan(0x10, &image, "48 ?? 05");
    assert_eq!(exact, 0x13);
    assert_eq!(loose, 0x10);
}

#[test]
fn reformatted_pattern_scans_alike() {
    let image = [0x00, 0x48, 0x8B, 0x05, 0x0A, 0x00];
    let r = Scan(0x10, &image, "48 8B ?? 0A");
    assert_eq!(r, 0x11);
    assert_eq!(Scan(0x10, &image, "  48\t8b  x? +0a \n"), r);
    assert_eq!(Scan(0x10, &image, "zz 048 8B ? A 0x1"), r);
}
