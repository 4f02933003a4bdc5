use ssredirector::text::{chars_of, eq_ignore_ascii_case, find_seq_from, is_whitespace, trim_bounds};
use ssredirector::utf16::{decode_utf16_lossy, encode_utf16};

#[test]
fn encodes_bmp_and_supplementary_characters() {
    assert_eq!(encode_utf16("a\u{E9}\u{1F600}"), vec![0x61, 0xE9, 0xD83D, 0xDE00]);
    assert_eq!(encode_utf16(""), Vec::<u16>::new());
}

#[test]
fn encoding_matches_std() {
    let s = "http://127.0.0.1:21000/\u{10FFFF}\u{FFFF}x";
    let expected: Vec<u16> = s.encode_utf16().collect();
    assert_eq!(encode_utf16(s), expected);
}

#[test]
fn decode_round_trips_encode() {
    for s in ["", "plain", "\u{1F600} and \u{10000}", "\u{D7FF}\u{E000}"] {
        assert_eq!(decode_utf16_lossy(&encode_utf16(s)), s);
    }
}

#[test]
fn unpaired_surrogates_become_replacement_characters() {
    assert_eq!(decode_utf16_lossy(&[0x61, 0xD800, 0x62]), "a\u{FFFD}b");
    assert_eq!(decode_utf16_lossy(&[0xDC00, 0xD83D]), "\u{FFFD}\u{FFFD}");
    let units = [0xD83D, 0xDE00, 0xDE00, 0x41];
    assert_eq!(decode_utf16_lossy(&units), String::from_utf16_lossy(&units));
}

#[test]
fn whitespace_is_unicode_white_space() {
    for c in ['\t', '\n', ' ', '\u{85}', '\u{A0}', '\u{2003}', '\u{3000}'] {
        assert!(is_whitespace(c));
    }
    for c in ['a', '\u{200B}', '_', '\u{FEFF}'] {
        assert!(!is_whitespace(c));
    }
}

#[test]
fn ascii_case_insensitive_comparison() {
    assert!(eq_ignore_ascii_case("NoNe", "None"));
    assert!(!eq_ignore_ascii_case("Non", "None"));
    assert!(!eq_ignore_ascii_case("\u{C9}", "\u{E9}"));
}

#[test]
fn finds_first_occurrence_from_start() {
    let s = chars_of("a://b://c");
    let t = chars_of("://");
    assert_eq!(find_seq_from(&s, &t, 0), Some(1));
    assert_eq!(find_seq_from(&s, &t, 2), Some(5));
    assert_eq!(find_seq_from(&s, &t, 6), None);
}

#[test]
fn trims_both_ends() {
    let v = chars_of("  a b \t");
    assert_eq!(trim_bounds(&v, 0, v.len()), (2, 5));
    let w = chars_of("   ");
    let (a, b) = trim_bounds(&w, 0, 3);
    assert_eq!(a, b);
}
