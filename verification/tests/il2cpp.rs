use ssredirector::il2cpp::{
    rewrite_url_argument, CreateIl2CppString, Il2CppString, Il2cppToString,
    ReplaceIl2CppStringChars,
};
use ssredirector::utf16::encode_utf16;

fn object(text: &str, capacity: usize) -> Il2CppString {
    let mut chars = encode_utf16(text);
    let length = chars.len() as i32;
    chars.resize(capacity.max(chars.len()), 0x7777);
    Il2CppString { m_pClass: 0x1000, monitor: 0x2000, length, chars }
}

#[test]
fn reads_text_of_object() {
    assert_eq!(Il2cppToString(None), None);
    let s = object("hello", 32);
    assert_eq!(Il2cppToString(Some(&s)).as_deref(), Some("hello"));
    let empty = Il2CppString { m_pClass: 1, monitor: 0, length: 0, chars: vec![0x41; 4] };
    assert_eq!(Il2cppToString(Some(&empty)).as_deref(), Some(""));
    let negative = Il2CppString { m_pClass: 1, monitor: 0, length: -3, chars: vec![0x41; 4] };
    assert_eq!(Il2cppToString(Some(&negative)).as_deref(), Some(""));
}

#[test]
fn replaces_in_place_and_clears_the_rest() {
    let mut s = object("abcdef", 8);
    let units = encode_utf16("xy");
    assert!(ReplaceIl2CppStringChars(Some(&mut s), &units));
    assert_eq!(s.length, 2);
    assert_eq!(s.chars, vec![0x78, 0x79, 0, 0, 0, 0, 0x7777, 0x7777]);
    assert_eq!(s.m_pClass, 0x1000);
    assert_eq!(s.monitor, 0x2000);
    assert_eq!(Il2cppToString(Some(&s)).as_deref(), Some("xy"));
}

#[test]
fn refuses_longer_text_or_missing_object() {
    let mut s = object("ab", 8);
    let before_chars = s.chars.clone();
    assert!(!ReplaceIl2CppStringChars(Some(&mut s), &encode_utf16("abc")));
    assert_eq!(s.length, 2);
    assert_eq!(s.chars, before_chars);
    assert!(!ReplaceIl2CppStringChars(None, &[1, 2]));
}

#[test]
fn creates_object_of_same_class() {
    let orig = object("a", 32);
    assert!(CreateIl2CppString("abc", None).is_none());
    let n = CreateIl2CppString("abc", Some(&orig)).unwrap();
    assert_eq!(n.m_pClass, 0x1000);
    assert_eq!(n.monitor, 0);
    assert_eq!(n.length, 3);
    assert_eq!(n.chars.len(), 34);
    assert_eq!(&n.chars[..4], &[0x61, 0x62, 0x63, 0]);
    let long: String = std::iter::repeat('z').take(40).collect();
    let m = CreateIl2CppString(&long, Some(&orig)).unwrap();
    assert_eq!(m.length, 40);
    assert_eq!(m.chars.len(), 42);
    assert_eq!(&m.chars[40..], &[0, 0]);
    assert_eq!(Il2cppToString(Some(&m)).as_deref(), Some(long.as_str()));
}

#[test]
fn rewrite_in_place_when_it_fits() {
    let mut s = object("https://sdk.yostarplat.com/api/v1/login", 48);
    let r = rewrite_url_argument("http://srv", &mut s);
    assert!(r.is_none());
    assert_eq!(Il2cppToString(Some(&s)).as_deref(), Some("http://srv/api/v1/login"));
    assert_eq!(s.m_pClass, 0x1000);
}

#[test]
fn rewrite_builds_new_object_when_too_long() {
    let mut s = object("https://yostar.cn/a", 32);
    let before = s.chars.clone();
    let r = rewrite_url_argument("http://a-rather-long-private-server.example:21000", &mut s).unwrap();
    assert_eq!(s.chars, before);
    assert_eq!(
        Il2cppToString(Some(&r)).as_deref(),
        Some("http://a-rather-long-private-server.example:21000/a")
    );
    assert_eq!(r.m_pClass, 0x1000);
    assert_eq!(r.monitor, 0);
}

#[test]
fn rewrite_leaves_other_urls() {
    let mut s = object("https://example.com/a", 32);
    let before = s.chars.clone();
    assert!(rewrite_url_argument("http://srv", &mut s).is_none());
    assert_eq!(s.chars, before);
    assert_eq!(s.length, 21);
}
