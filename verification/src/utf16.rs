//! UTF-16 encoding and lossy decoding of strings.

use vstd::prelude::*;
use crate::text::chars_of;

verus! {

/// A high (leading) surrogate code unit.
pub open spec fn is_high_surrogate(u: u16) -> bool {
    0xD800 <= u <= 0xDBFF
}

/// A low (trailing) surrogate code unit.
pub open spec fn is_low_surrogate(u: u16) -> bool {
    0xDC00 <= u <= 0xDFFF
}

/// The code units of one character: one unit below U+10000, a surrogate pair
/// above.
pub open spec fn char_utf16(c: char) -> Seq<u16> {
    let v = c as int;
    if v < 0x10000 {
        seq![v as u16]
    } else {
        seq![(0xD800 + (v - 0x10000) / 0x400) as u16, (0xDC00 + (v - 0x10000) % 0x400) as u16]
    }
}

/// The UTF-16 encoding of a character sequence.
pub open spec fn utf16_encode(s: Seq<char>) -> Seq<u16>
    decreases s.len(),
{
    if s.len() == 0 {
        Seq::empty()
    } else {
        char_utf16(s[0]) + utf16_encode(s.drop_first())
    }
}

/// The character a surrogate pair stands for.
pub open spec fn surrogate_pair_value(hi: u16, lo: u16) -> int {
    0x10000 + (hi - 0xD800) * 0x400 + (lo - 0xDC00)
}

/// Lossy UTF-16 decoding: well-formed units and surrogate pairs give their
/// character, every unpaired surrogate gives U+FFFD.
pub open spec fn utf16_decode_lossy(u: Seq<u16>) -> Seq<char>
    decreases u.len(),
{
    if u.len() == 0 {
        Seq::empty()
    } else if u.len() >= 2 && is_high_surrogate(u[0]) && is_low_surrogate(u[1]) {
        seq![surrogate_pair_value(u[0], u[1]) as char] + utf16_decode_lossy(u.skip(2))
    } else if is_high_surrogate(u[0]) || is_low_surrogate(u[0]) {
        seq!['\u{FFFD}'] + utf16_decode_lossy(u.skip(1))
    } else {
        seq![u[0] as char] + utf16_decode_lossy(u.skip(1))
    }
}

/// Every character is a Unicode scalar value.
pub proof fn lemma_char_is_scalar(c: char)
    ensures
        0 <= c as int <= 0x10FFFF,
        !(0xD800 <= c as int <= 0xDFFF),
{
}

/// Encoding appends the units of each new character.
pub proof fn lemma_encode_push(s: Seq<char>, c: char)
    ensures
        utf16_encode(s.push(c)) == utf16_encode(s) + char_utf16(c),
    decreases s.len(),
{
    if s.len() == 0 {
        assert(s.push(c).drop_first() =~= Seq::<char>::empty());
        assert(utf16_encode(Seq::<char>::empty()) == Seq::<u16>::empty());
        assert(utf16_encode(s.push(c)) =~= char_utf16(c));
    } else {
        lemma_encode_push(s.drop_first(), c);
        assert(s.push(c).drop_first() =~= s.drop_first().push(c));
        assert(utf16_encode(s.push(c)) =~= utf16_encode(s) + char_utf16(c));
    }
}

/// Decoding what was encoded gives back the characters: UTF-16 loses nothing.
pub proof fn lemma_decode_encode(s: Seq<char>)
    ensures
        utf16_decode_lossy(utf16_encode(s)) == s,
    decreases s.len(),
{
    if s.len() == 0 {
    } else {
        let c = s[0];
        let rest = utf16_encode(s.drop_first());
        let u = char_utf16(c) + rest;
        lemma_decode_encode(s.drop_first());
        lemma_char_is_scalar(c);
        let v = c as int;
        if v < 0x10000 {
            assert(u.skip(1) =~= rest);
            assert(u[0] == v);
        } else {
            let w = v - 0x10000;
            assert(0 <= w < 0x100000);
            assert(w == (w / 0x400) * 0x400 + w % 0x400);
            assert(u.skip(2) =~= rest);
            assert(surrogate_pair_value(u[0], u[1]) == v);
        }
        assert(s =~= seq![c] + s.drop_first());
    }
}

/// `char::from_u32`: the character with scalar value `v`, or `None` for a
/// surrogate or a value above U+10FFFF.
#[verifier::external_body]
fn char_from_u32(v: u32) -> (r: Option<char>)
    ensures
        r is Some <==> (v < 0xD800 || (0xE000 <= v && v <= 0x10FFFF)),
        r matches Some(c) ==> c as int == v as int,
{
    char::from_u32(v)
}

/// `String::push`: appends one character.
#[verifier::external_body]
pub(crate) fn push_char(s: &mut String, c: char)
    ensures
        final(s)@ == old(s)@.push(c),
{
    s.push(c)
}

fn scalar_char(v: u32) -> (c: char)
    requires
        v < 0xD800 || (0xE000 <= v && v <= 0x10FFFF),
    ensures
        c as int == v,
{
    match char_from_u32(v) {
        Some(c) => c,
        None => '\u{FFFD}',
    }
}

/// The UTF-16 code units of `s`, as `str::encode_utf16` yields them.
pub fn encode_utf16(s: &str) -> (u: Vec<u16>)
    ensures
        u@ == utf16_encode(s@),
{
    let chars = chars_of(s);
    let mut out: Vec<u16> = Vec::new();
    let mut i: usize = 0;
    while i < chars.len()
        invariant
            i <= chars@.len(),
            out@ == utf16_encode(chars@.take(i as int)),
        decreases chars@.len() - i,
    {
        let c = chars[i];
        let v = c as u32;
        proof {
            lemma_char_is_scalar(c);
            lemma_encode_push(chars@.take(i as int), c);
            assert(chars@.take(i as int).push(c) =~= chars@.take(i + 1));
        }
        if v < 0x10000 {
            out.push(v as u16);
        } else {
            let w = v - 0x10000;
            out.push((0xD800 + w / 0x400) as u16);
            out.push((0xDC00 + w % 0x400) as u16);
        }
        assert(out@ == utf16_encode(chars@.take(i + 1)));
        i = i + 1;
    }
    assert(chars@.take(chars@.len() as int) =~= chars@);
    out
}

/// Decodes `u` into a string, replacing each unpaired surrogate by U+FFFD, as
/// `String::from_utf16_lossy` does.
pub fn decode_utf16_lossy(u: &[u16]) -> (s: String)
    ensures
        s@ == utf16_decode_lossy(u@),
{
    let mut out = String::new();
    let mut i: usize = 0;
    assert(u@.skip(0) =~= u@);
    while i < u.len()
        invariant
            i <= u@.len(),
            out@ + utf16_decode_lossy(u@.skip(i as int)) == utf16_decode_lossy(u@),
        decreases u@.len() - i,
    {
        let ghost rest = u@.skip(i as int);
        let a = u[i];
        if i + 1 < u.len() && 0xD800 <= a && a <= 0xDBFF && 0xDC00 <= u[i + 1] && u[i + 1] <= 0xDFFF {
            let b = u[i + 1];
            let v = 0x10000 + ((a - 0xD800) as u32) * 0x400 + ((b - 0xDC00) as u32);
            let c = scalar_char(v);
            assert(rest.skip(2) =~= u@.skip(i + 2));
            push_char(&mut out, c);
            i = i + 2;
        } else if 0xD800 <= a && a <= 0xDFFF {
            assert(rest.skip(1) =~= u@.skip(i + 1));
            push_char(&mut out, '\u{FFFD}');
            i = i + 1;
        } else {
            let c = scalar_char(a as u32);
            assert(rest.skip(1) =~= u@.skip(i + 1));
            push_char(&mut out, c);
            i = i + 1;
        }
    }
    assert(u@.skip(i as int) =~= Seq::<u16>::empty());
    out
}

} // verus!

verus! {

/// A character takes at most two code units.
pub proof fn lemma_encode_len(s: Seq<char>)
    ensures
        s.len() <= utf16_encode(s).len() <= 2 * s.len(),
    decreases s.len(),
{
    if s.len() > 0 {
        lemma_encode_len(s.drop_first());
    }
}

/// Decoding never yields more characters than there were code units.
pub proof fn lemma_decode_len(u: Seq<u16>)
    ensures
        utf16_decode_lossy(u).len() <= u.len(),
    decreases u.len(),
{
    if u.len() == 0 {
    } else if u.len() >= 2 && is_high_surrogate(u[0]) && is_low_surrogate(u[1]) {
        lemma_decode_len(u.skip(2));
    } else {
        lemma_decode_len(u.skip(1));
    }
}

} // verus!

verus! {

/// `u` is well-formed UTF-16: every surrogate is part of a high-low pair.
pub open spec fn utf16_well_formed(u: Seq<u16>) -> bool
    decreases u.len(),
{
    if u.len() == 0 {
        true
    } else if u.len() >= 2 && is_high_surrogate(u[0]) && is_low_surrogate(u[1]) {
        utf16_well_formed(u.skip(2))
    } else if is_high_surrogate(u[0]) || is_low_surrogate(u[0]) {
        false
    } else {
        utf16_well_formed(u.skip(1))
    }
}

/// Strict decoding, as `String::from_utf16` does it: the characters of
/// well-formed UTF-16, `None` for any unpaired surrogate.
pub open spec fn utf16_decode(u: Seq<u16>) -> Option<Seq<char>> {
    if utf16_well_formed(u) {
        Some(utf16_decode_lossy(u))
    } else {
        None
    }
}

/// Decodes `u` strictly: `None` when it holds an unpaired surrogate.
pub fn decode_utf16(u: &[u16]) -> (r: Option<String>)
    ensures
        r is Some <==> utf16_decode(u@) is Some,
        r matches Some(s) ==> utf16_decode(u@) == Some(s@),
{
    let mut i: usize = 0;
    assert(u@.skip(0) =~= u@);
    while i < u.len()
        invariant
            i <= u@.len(),
            utf16_well_formed(u@) == utf16_well_formed(u@.skip(i as int)),
        decreases u@.len() - i,
    {
        let ghost rest = u@.skip(i as int);
        let a = u[i];
        if i + 1 < u.len() && 0xD800 <= a && a <= 0xDBFF && 0xDC00 <= u[i + 1] && u[i + 1] <= 0xDFFF {
            assert(rest.skip(2) =~= u@.skip(i + 2));
            i = i + 2;
        } else if 0xD800 <= a && a <= 0xDFFF {
            return None;
        } else {
            assert(rest.skip(1) =~= u@.skip(i + 1));
            i = i + 1;
        }
    }
    assert(u@.skip(i as int) =~= Seq::<u16>::empty());
    Some(decode_utf16_lossy(u))
}

} // verus!
