//! Byte-pattern search over a loaded module image.

use vstd::prelude::*;
use crate::text::{
    all_whitespace, chars_of, ends_token_boundary, is_unicode_whitespace, is_whitespace,
    lemma_tokens_across_whitespace, lemma_tokens_around, lemma_tokens_join, no_whitespace,
    starts_token_boundary, whitespace_split, whitespace_tokens,
};

verus! {

/// The value of a hexadecimal digit.
pub open spec fn hex_digit_value(c: char) -> Option<int> {
    if '0' <= c <= '9' {
        Some(c as int - '0' as int)
    } else if 'a' <= c <= 'f' {
        Some(c as int - 'a' as int + 10)
    } else if 'A' <= c <= 'F' {
        Some(c as int - 'A' as int + 10)
    } else {
        None
    }
}

/// All of `d` are hexadecimal digits.
pub open spec fn all_hex_digits(d: Seq<char>) -> bool {
    forall|k: int| 0 <= k < d.len() ==> hex_digit_value(#[trigger] d[k]) is Some
}

/// The number that the hexadecimal digits `d` write.
pub open spec fn hex_value(d: Seq<char>) -> int
    decreases d.len(),
{
    if d.len() == 0 {
        0
    } else {
        hex_value(d.drop_last()) * 16 + hex_digit_value(d.last()).unwrap()
    }
}

/// `u8::from_str_radix(token, 16)`: an optional `+`, then one or more
/// hexadecimal digits whose value fits in a byte.
pub open spec fn parse_hex_byte(token: Seq<char>) -> Option<u8> {
    let digits = if token.len() > 0 && token[0] == '+' {
        token.drop_first()
    } else {
        token
    };
    if digits.len() > 0 && all_hex_digits(digits) && hex_value(digits) <= 255 {
        Some(hex_value(digits) as u8)
    } else {
        None
    }
}

/// What one pattern token contributes: a wildcard when it holds a `?`, a
/// byte when it is a hexadecimal byte, nothing otherwise.
pub open spec fn token_entry(token: Seq<char>) -> Option<Option<u8>> {
    if token.contains('?') {
        Some(None)
    } else {
        match parse_hex_byte(token) {
            Some(b) => Some(Some(b)),
            None => None,
        }
    }
}

/// The entries of a sequence of tokens, skipping tokens that are neither a
/// wildcard nor a byte.
pub open spec fn token_entries(tokens: Seq<Seq<char>>) -> Seq<Option<u8>>
    decreases tokens.len(),
{
    if tokens.len() == 0 {
        Seq::empty()
    } else {
        let prev = token_entries(tokens.drop_last());
        match token_entry(tokens.last()) {
            Some(e) => prev.push(e),
            None => prev,
        }
    }
}

/// The byte pattern that a pattern text such as `"48 8B ?? 05"` describes:
/// `None` stands for a wildcard.
pub open spec fn pattern_entries(pattern: Seq<char>) -> Seq<Option<u8>> {
    token_entries(whitespace_tokens(pattern))
}

proof fn lemma_hex_value_nonneg(d: Seq<char>)
    requires
        all_hex_digits(d),
    ensures
        hex_value(d) >= 0,
        d.len() > 0 ==> hex_value(d) >= hex_value(d.drop_last()),
    decreases d.len(),
{
    if d.len() > 0 {
        assert(hex_digit_value(d[d.len() - 1]) is Some);
        assert(all_hex_digits(d.drop_last())) by {
            assert forall|k: int| 0 <= k < d.drop_last().len() implies hex_digit_value(
                #[trigger] d.drop_last()[k],
            ) is Some by {
                assert(d.drop_last()[k] == d[k]);
            }
        }
        lemma_hex_value_nonneg(d.drop_last());
    }
}

fn hex_digit(c: char) -> (r: Option<u32>)
    ensures
        r is Some <==> hex_digit_value(c) is Some,
        r matches Some(v) ==> v == hex_digit_value(c).unwrap() && v < 16,
{
    if '0' <= c && c <= '9' {
        Some((c as u32) - ('0' as u32))
    } else if 'a' <= c && c <= 'f' {
        Some((c as u32) - ('a' as u32) + 10)
    } else if 'A' <= c && c <= 'F' {
        Some((c as u32) - ('A' as u32) + 10)
    } else {
        None
    }
}

/// Parses a hexadecimal byte as `u8::from_str_radix(token, 16)` does.
pub fn hex_byte(token: &Vec<char>) -> (r: Option<u8>)
    ensures
        r == parse_hex_byte(token@),
{
    let start: usize = if token.len() > 0 && token[0] == '+' {
        1
    } else {
        0
    };
    let ghost digits = token@.skip(start as int);
    assert(start == 1 ==> token@.drop_first() =~= digits);
    assert(start == 0 ==> token@ =~= digits);
    if start >= token.len() {
        return None;
    }
    let mut value: u32 = 0;
    let mut too_big = false;
    let mut i = start;
    while i < token.len()
        invariant
            start <= i <= token@.len(),
            digits == token@.skip(start as int),
            digits == (if token@.len() > 0 && token@[0] == '+' { token@.drop_first() } else { token@ }),
            all_hex_digits(digits.take(i - start)),
            !too_big ==> value == hex_value(digits.take(i - start)) && value <= 255,
            too_big ==> hex_value(digits.take(i - start)) > 255,
        decreases token@.len() - i,
    {
        let ghost prefix = digits.take(i - start);
        let ghost next = digits.take(i + 1 - start);
        assert(next.drop_last() =~= prefix);
        assert(next.last() == token@[i as int]);
        match hex_digit(token[i]) {
            None => {
                assert(digits[i - start] == token@[i as int]);
                return None;
            },
            Some(d) => {
                assert(all_hex_digits(next)) by {
                    assert forall|k: int| 0 <= k < next.len() implies hex_digit_value(
                        #[trigger] next[k],
                    ) is Some by {
                        if k < prefix.len() {
                            assert(next[k] == prefix[k]);
                        }
                    }
                }
                proof { lemma_hex_value_nonneg(next); }
                if !too_big {
                    let v = value * 16 + d;
                    if v > 255 {
                        too_big = true;
                    } else {
                        value = v;
                    }
                }
            },
        }
        i = i + 1;
    }
    assert(digits.take(i - start) =~= digits);
    if too_big {
        None
    } else {
        Some(value as u8)
    }
}

} // verus!

verus! {

fn has_wildcard(token: &Vec<char>) -> (b: bool)
    ensures
        b == token@.contains('?'),
{
    let mut i: usize = 0;
    while i < token.len()
        invariant
            i <= token@.len(),
            forall|k: int| 0 <= k < i ==> token@[k] != '?',
        decreases token@.len() - i,
    {
        if token[i] == '?' {
            assert(token@[i as int] == '?');
            return true;
        }
        i = i + 1;
    }
    false
}

fn add_token(entries: &mut Vec<Option<u8>>, token: &Vec<char>)
    ensures
        final(entries)@ == match token_entry(token@) {
            Some(e) => old(entries)@.push(e),
            None => old(entries)@,
        },
{
    if has_wildcard(token) {
        entries.push(None);
    } else {
        match hex_byte(token) {
            Some(b) => entries.push(Some(b)),
            None => {},
        }
    }
}

/// Parses a pattern text: its white-space separated tokens, each holding a
/// `?` standing for any byte, each hexadecimal byte for itself, and any
/// other token ignored.
pub fn parse_pattern(pattern: &str) -> (r: Vec<Option<u8>>)
    ensures
        r@ == pattern_entries(pattern@),
{
    let chars = chars_of(pattern);
    let mut entries: Vec<Option<u8>> = Vec::new();
    let mut cur: Vec<char> = Vec::new();
    let mut i: usize = 0;
    while i < chars.len()
        invariant
            i <= chars@.len(),
            entries@ == token_entries(whitespace_split(chars@.take(i as int)).0),
            cur@ == whitespace_split(chars@.take(i as int)).1,
        decreases chars@.len() - i,
    {
        let c = chars[i];
        let ghost before = chars@.take(i as int);
        assert(chars@.take(i + 1).drop_last() =~= before);
        assert(chars@.take(i + 1).last() == c);
        if is_whitespace(c) {
            if cur.len() > 0 {
                let ghost done = whitespace_split(before).0;
                assert(done.push(cur@).drop_last() =~= done);
                add_token(&mut entries, &cur);
                cur = Vec::new();
            }
        } else {
            cur.push(c);
        }
        i = i + 1;
    }
    assert(chars@.take(chars@.len() as int) =~= chars@);
    if cur.len() > 0 {
        let ghost done = whitespace_split(chars@).0;
        assert(done.push(cur@).drop_last() =~= done);
        add_token(&mut entries, &cur);
    }
    entries
}

/// The pattern matches the image at offset `i`: every byte entry equals the
/// image byte under it; wildcards match anything.
pub open spec fn matches_at(image: Seq<u8>, pattern: Seq<Option<u8>>, i: int) -> bool {
    forall|j: int|
        0 <= j < pattern.len() ==> (#[trigger] pattern[j] matches Some(b) ==> image[i + j] == b)
}

/// The first offset below `limit` at or after `start` where the pattern
/// matches.
pub open spec fn first_match_from(image: Seq<u8>, pattern: Seq<Option<u8>>, start: int, limit: int) -> Option<int>
    decreases limit - start,
{
    if start < 0 || start >= limit {
        None
    } else if matches_at(image, pattern, start) {
        Some(start)
    } else {
        first_match_from(image, pattern, start + 1, limit)
    }
}

/// The address `Scan` reports: zero for a missing module or an empty
/// pattern; otherwise the module base plus the first offset, among
/// `0 .. image length - pattern length` (the last offset at which the
/// pattern would fit is not tried), where the pattern matches; zero when it
/// matches at none.
pub open spec fn scan_result(base: usize, image: Seq<u8>, pattern: Seq<Option<u8>>) -> int {
    if base == 0 || pattern.len() == 0 {
        0
    } else {
        match first_match_from(image, pattern, 0, image.len() - pattern.len()) {
            Some(i) => base + i,
            None => 0,
        }
    }
}

fn matches_at_exec(image: &[u8], pattern: &Vec<Option<u8>>, i: usize) -> (b: bool)
    requires
        i + pattern@.len() <= image@.len(),
    ensures
        b == matches_at(image@, pattern@, i as int),
{
    let mut j: usize = 0;
    while j < pattern.len()
        invariant
            j <= pattern@.len(),
            i + pattern@.len() <= image@.len(),
            image@.len() == image.len(),
            forall|k: int|
                0 <= k < j ==> (#[trigger] pattern@[k] matches Some(b) ==> image@[i + k] == b),
        decreases pattern@.len() - j,
    {
        match pattern[j] {
            Some(b) => {
                if image[i + j] != b {
                    assert(!(pattern@[j as int] matches Some(b) ==> image@[i + j] == b));
                    return false;
                }
            },
            None => {},
        }
        j = j + 1;
    }
    true
}

/// Finds `pattern` in the image of a loaded module at address `base`
/// (`image` is the module's memory, `SizeOfImage` bytes), returning the
/// address of the first match, or zero; see `scan_result`.
pub fn Scan(base: usize, image: &[u8], pattern: &str) -> (r: usize)
    requires
        base + image@.len() <= usize::MAX,
        base != 0 ==> pattern_entries(pattern@).len() <= image@.len(),
    ensures
        r == scan_result(base, image@, pattern_entries(pattern@)),
{
    if base == 0 {
        return 0;
    }
    let entries = parse_pattern(pattern);
    let size = entries.len();
    if size == 0 {
        return 0;
    }
    let limit = image.len() - size;
    let mut i: usize = 0;
    while i < limit
        invariant
            limit + size == image@.len(),
            size == entries@.len(),
            entries@ == pattern_entries(pattern@),
            base != 0,
            size > 0,
            base + image@.len() <= usize::MAX,
            i <= limit,
            first_match_from(image@, entries@, 0, limit as int) == first_match_from(
                image@,
                entries@,
                i as int,
                limit as int,
            ),
        decreases limit - i,
    {
        if matches_at_exec(image, &entries, i) {
            return base + i;
        }
        i = i + 1;
    }
    0
}

} // verus!

verus! {

/// The little-endian 32-bit number in `b` at `off`.
pub open spec fn le_u32(b: Seq<u8>, off: int) -> int {
    b[off] + b[off + 1] * 0x100 + b[off + 2] * 0x10000 + b[off + 3] * 0x1000000
}

/// Offset of `e_lfanew`, the NT headers' offset, in the DOS header.
pub const DOS_LFANEW_OFFSET: usize = 0x3C;

/// Offset of `OptionalHeader.SizeOfImage` in 64-bit NT headers.
pub const NT_SIZE_OF_IMAGE_OFFSET: usize = 0x50;

/// `SizeOfImage` of a PE image whose first bytes are `headers`: read at
/// `e_lfanew + 0x50`; `None` when `e_lfanew` is negative or the headers are
/// too short to hold the field.
pub open spec fn pe_size_of_image(headers: Seq<u8>) -> Option<u32> {
    if headers.len() < DOS_LFANEW_OFFSET + 4 {
        None
    } else {
        let nt = le_u32(headers, DOS_LFANEW_OFFSET as int);
        if nt >= 0x8000_0000 || nt + NT_SIZE_OF_IMAGE_OFFSET + 4 > headers.len() {
            None
        } else {
            Some(le_u32(headers, nt + NT_SIZE_OF_IMAGE_OFFSET) as u32)
        }
    }
}

fn read_le_u32(b: &[u8], off: usize) -> (v: u32)
    requires
        off + 4 <= b@.len(),
    ensures
        v == le_u32(b@, off as int),
{
    (b[off] as u32) + (b[off + 1] as u32) * 0x100 + (b[off + 2] as u32) * 0x10000 + (b[off
        + 3] as u32) * 0x1000000
}

/// Reads `SizeOfImage` from the headers of a loaded module.
pub fn image_size_from_headers(headers: &[u8]) -> (r: Option<u32>)
    ensures
        r == pe_size_of_image(headers@),
{
    if headers.len() < DOS_LFANEW_OFFSET + 4 {
        return None;
    }
    let nt = read_le_u32(headers, DOS_LFANEW_OFFSET);
    if nt >= 0x8000_0000 {
        return None;
    }
    let nt = nt as usize;
    if nt + NT_SIZE_OF_IMAGE_OFFSET + 4 > headers.len() {
        return None;
    }
    Some(read_le_u32(headers, nt + NT_SIZE_OF_IMAGE_OFFSET))
}

} // verus!

verus! {

proof fn lemma_first_match_from(image: Seq<u8>, pattern: Seq<Option<u8>>, start: int, limit: int)
    requires
        0 <= start,
    ensures
        first_match_from(image, pattern, start, limit) matches Some(i) ==> start <= i < limit
            && matches_at(image, pattern, i) && forall|j: int|
            start <= j < i ==> !matches_at(image, pattern, j),
        first_match_from(image, pattern, start, limit) is None ==> forall|j: int|
            start <= j < limit ==> !matches_at(image, pattern, j),
    decreases limit - start,
{
    if start < limit && !matches_at(image, pattern, start) {
        lemma_first_match_from(image, pattern, start + 1, limit);
    }
}

/// What `Scan` reports is the first match: a non-zero address is the base
/// plus an offset where the pattern matches with no match before it, and
/// zero (for a present module and a non-empty pattern) means no tried
/// offset matches.
pub proof fn lemma_scan_finds_first(base: usize, image: Seq<u8>, pattern: Seq<Option<u8>>)
    requires
        base != 0,
        pattern.len() > 0,
    ensures
        scan_result(base, image, pattern) != 0 ==> {
            let i = scan_result(base, image, pattern) - base;
            &&& 0 <= i < image.len() - pattern.len()
            &&& matches_at(image, pattern, i)
            &&& forall|j: int| 0 <= j < i ==> !matches_at(image, pattern, j)
        },
        scan_result(base, image, pattern) == 0 ==> forall|j: int|
            0 <= j < image.len() - pattern.len() ==> !matches_at(image, pattern, j),
{
    lemma_first_match_from(image, pattern, 0, image.len() - pattern.len());
}

/// The signature of the first hooked URL routine (two-argument form).
pub const U2_PATTERN: &'static str = "48 89 5C 24 ?? 48 89 74 24 ?? 57 48 83 EC 20 48 8B F2 49 8B F8 33 D2 48 8B D9 E8 ?? ?? ?? ?? 48 8B 05 ?? ?? ?? ??";

/// The signature of the second hooked URL routine (four-argument form).
pub const U3_PATTERN: &'static str = "48 89 5C 24 ?? 48 89 6C 24 ?? 48 89 74 24 ?? 57 48 83 EC ?? 48 8B EA 49 8B F9 33 D2 49 8B F0 48 8B D9 E8 ?? ?? ?? ?? 48 8B 05 ?? ?? ?? ??";

} // verus!

verus! {

/// Turning one byte of the pattern into a wildcard can only find the same
/// match or an earlier one.
pub proof fn lemma_wildcard_no_later(base: usize, image: Seq<u8>, pattern: Seq<Option<u8>>, k: int)
    requires
        0 <= k < pattern.len(),
    ensures
        scan_result(base, image, pattern) != 0 ==> {
            let r2 = scan_result(base, image, pattern.update(k, None));
            r2 != 0 && r2 <= scan_result(base, image, pattern)
        },
{
    let p2 = pattern.update(k, None);
    let limit = image.len() - pattern.len();
    lemma_first_match_from(image, pattern, 0, limit);
    lemma_first_match_from(image, p2, 0, limit);
    if scan_result(base, image, pattern) != 0 {
        let i = first_match_from(image, pattern, 0, limit).unwrap();
        assert(matches_at(image, p2, i)) by {
            assert forall|j: int| 0 <= j < p2.len() implies (#[trigger] p2[j] matches Some(b) ==> image[i + j] == b) by {
                if j != k {
                    assert(p2[j] == pattern[j]);
                }
            }
        }
    }
}

/// The entries of a token list depend only on each token's entry: tokens
/// that give the same entry (`A`, `a`, `0a`, `+0A`; `??`, `?`, `x?`) may
/// replace one another.
pub proof fn lemma_entries_by_token(t1: Seq<Seq<char>>, t2: Seq<Seq<char>>)
    requires
        t1.len() == t2.len(),
        forall|i: int| 0 <= i < t1.len() ==> token_entry(#[trigger] t1[i]) == token_entry(t2[i]),
    ensures
        token_entries(t1) == token_entries(t2),
    decreases t1.len(),
{
    if t1.len() > 0 {
        lemma_entries_by_token(t1.drop_last(), t2.drop_last());
        assert(token_entry(t1[t1.len() - 1]) == token_entry(t2[t2.len() - 1]));
    }
}

/// A token that is neither a wildcard nor a byte may be left out.
pub proof fn lemma_entries_skip_junk(t: Seq<Seq<char>>, k: int)
    requires
        0 <= k < t.len(),
        token_entry(t[k]) is None,
    ensures
        token_entries(t.remove(k)) == token_entries(t),
    decreases t.len(),
{
    if k == t.len() - 1 {
        assert(t.remove(k) =~= t.drop_last());
    } else {
        lemma_entries_skip_junk(t.drop_last(), k);
        assert(t.remove(k).drop_last() =~= t.drop_last().remove(k));
        assert(t.remove(k).last() == t.last());
    }
}

} // verus!

verus! {

/// The entries of two token lists one after the other.
pub proof fn lemma_entries_concat(x: Seq<Seq<char>>, y: Seq<Seq<char>>)
    ensures
        token_entries(x + y) == token_entries(x) + token_entries(y),
    decreases y.len(),
{
    if y.len() == 0 {
        assert(x + y =~= x);
        assert(token_entries(x) + token_entries(y) =~= token_entries(x));
    } else {
        lemma_entries_concat(x, y.drop_last());
        assert((x + y).drop_last() =~= x + y.drop_last());
        assert((x + y).last() == y.last());
        let ex = token_entries(x);
        let ey = token_entries(y.drop_last());
        if let Some(e) = token_entry(y.last()) {
            assert((ex + ey).push(e) =~= ex + ey.push(e));
        }
    }
}

proof fn lemma_entries_single(t: Seq<char>)
    ensures
        token_entries(seq![t]) == match token_entry(t) {
            Some(e) => seq![e],
            None => Seq::<Option<u8>>::empty(),
        },
{
    let s: Seq<Seq<char>> = seq![t];
    assert(s.drop_last() =~= Seq::<Seq<char>>::empty());
    assert(token_entries(Seq::<Seq<char>>::empty()) == Seq::<Option<u8>>::empty());
    assert(s.last() == t);
    if let Some(e) = token_entry(t) {
        assert(Seq::<Option<u8>>::empty().push(e) =~= seq![e]);
    }
}

proof fn lemma_entries_around(a: Seq<char>, t: Seq<char>, b: Seq<char>)
    requires
        ends_token_boundary(a),
        starts_token_boundary(b),
        t.len() > 0,
        no_whitespace(t),
    ensures
        pattern_entries(a + t + b) == token_entries(whitespace_tokens(a)) + token_entries(seq![t])
            + token_entries(whitespace_tokens(b)),
{
    lemma_tokens_around(a, t, b);
    lemma_entries_concat(whitespace_tokens(a) + seq![t], whitespace_tokens(b));
    lemma_entries_concat(whitespace_tokens(a), seq![t]);
}

/// In a pattern text, writing a wildcard token (one holding `?`) in place of
/// a byte token can only find the same match or an earlier one.
pub proof fn lemma_scan_text_wildcard(
    base: usize,
    image: Seq<u8>,
    a: Seq<char>,
    t: Seq<char>,
    w: Seq<char>,
    b: Seq<char>,
)
    requires
        ends_token_boundary(a),
        starts_token_boundary(b),
        t.len() > 0 && no_whitespace(t),
        w.len() > 0 && no_whitespace(w),
        token_entry(t) matches Some(Some(_)),
        token_entry(w) == Some(None::<u8>),
    ensures
        scan_result(base, image, pattern_entries(a + t + b)) != 0 ==> {
            let r2 = scan_result(base, image, pattern_entries(a + w + b));
            r2 != 0 && r2 <= scan_result(base, image, pattern_entries(a + t + b))
        },
{
    lemma_entries_around(a, t, b);
    lemma_entries_around(a, w, b);
    let ea = token_entries(whitespace_tokens(a));
    let eb = token_entries(whitespace_tokens(b));
    let et = token_entries(seq![t]);
    let ew = token_entries(seq![w]);
    lemma_entries_single(t);
    lemma_entries_single(w);
    assert(et == seq![token_entry(t).unwrap()]);
    assert(ew == seq![None::<u8>]);
    let p = ea + et + eb;
    assert(ea + ew + eb =~= p.update(ea.len() as int, None));
    lemma_wildcard_no_later(base, image, p, ea.len() as int);
}

/// In a pattern text, a token may be written in any form that gives the
/// same entry (`A`, `a`, `0a`, `+0A`; `??`, `?`, `x?`) without changing what
/// the scan finds.
pub proof fn lemma_scan_text_same_entry(
    base: usize,
    image: Seq<u8>,
    a: Seq<char>,
    t: Seq<char>,
    t2: Seq<char>,
    b: Seq<char>,
)
    requires
        ends_token_boundary(a),
        starts_token_boundary(b),
        t.len() > 0 && no_whitespace(t),
        t2.len() > 0 && no_whitespace(t2),
        token_entry(t) == token_entry(t2),
    ensures
        scan_result(base, image, pattern_entries(a + t2 + b)) == scan_result(
            base,
            image,
            pattern_entries(a + t + b),
        ),
{
    lemma_entries_around(a, t, b);
    lemma_entries_around(a, t2, b);
    lemma_entries_by_token(seq![t], seq![t2]);
}

/// In a pattern text, a token that is neither a wildcard nor a byte may be
/// deleted without changing what the scan finds.
pub proof fn lemma_scan_text_drop_junk(base: usize, image: Seq<u8>, a: Seq<char>, t: Seq<char>, b: Seq<char>)
    requires
        ends_token_boundary(a),
        starts_token_boundary(b),
        t.len() > 0 && no_whitespace(t),
        token_entry(t) is None,
    ensures
        scan_result(base, image, pattern_entries(a + b)) == scan_result(
            base,
            image,
            pattern_entries(a + t + b),
        ),
{
    lemma_entries_around(a, t, b);
    lemma_entries_single(t);
    lemma_tokens_join(a, b);
    lemma_entries_concat(whitespace_tokens(a), whitespace_tokens(b));
    assert(token_entries(whitespace_tokens(a)) + token_entries(seq![t]) =~= token_entries(whitespace_tokens(a)));
}

/// In a pattern text, the white space between, before or after tokens may
/// be changed freely (a run for a run, or a run dropped at either end)
/// without changing what the scan finds.
pub proof fn lemma_scan_text_whitespace(
    base: usize,
    image: Seq<u8>,
    a: Seq<char>,
    w1: Seq<char>,
    w2: Seq<char>,
    b: Seq<char>,
)
    requires
        w1.len() > 0 && all_whitespace(w1),
        w2.len() > 0 && all_whitespace(w2),
    ensures
        scan_result(base, image, pattern_entries(a + w1 + b)) == scan_result(
            base,
            image,
            pattern_entries(a + w2 + b),
        ),
        scan_result(base, image, pattern_entries(w1 + b)) == scan_result(base, image, pattern_entries(b)),
        scan_result(base, image, pattern_entries(a + w1)) == scan_result(base, image, pattern_entries(a)),
{
    let e: Seq<char> = Seq::empty();
    lemma_tokens_across_whitespace(a, w1, b);
    lemma_tokens_across_whitespace(a, w2, b);
    lemma_tokens_across_whitespace(e, w1, b);
    assert(e + w1 + b =~= w1 + b);
    assert(whitespace_tokens(e) =~= Seq::<Seq<char>>::empty());
    assert(whitespace_tokens(e) + whitespace_tokens(b) =~= whitespace_tokens(b));
    lemma_tokens_across_whitespace(a, w1, e);
    assert(a + w1 + e =~= a + w1);
    assert(whitespace_tokens(a) + whitespace_tokens(e) =~= whitespace_tokens(a));
}

} // verus!

verus! {

/// `b` holds the little-endian bytes of `x` at `off`.
pub open spec fn holds_le_bytes(b: Seq<u8>, off: int, x: u32) -> bool {
    &&& 0 <= off
    &&& off + 4 <= b.len()
    &&& b[off] == (x & 0xff) as u8
    &&& b[off + 1] == ((x >> 8) & 0xff) as u8
    &&& b[off + 2] == ((x >> 16) & 0xff) as u8
    &&& b[off + 3] == ((x >> 24) & 0xff) as u8
}

/// Reading a 32-bit little-endian number gives back every value written
/// as its four bytes (`u32::to_le_bytes`), the whole 32 bits.
pub proof fn lemma_le_u32_reads_back(b: Seq<u8>, off: int, x: u32)
    requires
        holds_le_bytes(b, off, x),
    ensures
        le_u32(b, off) == x,
{
    let b0 = x & 0xff;
    let b1 = (x >> 8) & 0xff;
    let b2 = (x >> 16) & 0xff;
    let b3 = (x >> 24) & 0xff;
    assert(b0 < 256 && b1 < 256 && b2 < 256 && b3 < 256) by (bit_vector)
        requires
            b0 == x & 0xff,
            b1 == (x >> 8) & 0xff,
            b2 == (x >> 16) & 0xff,
            b3 == (x >> 24) & 0xff,
    ;
    assert(x == b0 + b1 * 0x100 + b2 * 0x10000 + b3 * 0x1000000) by (bit_vector)
        requires
            b0 == x & 0xff,
            b1 == (x >> 8) & 0xff,
            b2 == (x >> 16) & 0xff,
            b3 == (x >> 24) & 0xff,
    ;
    assert(b[off] == b0);
    assert(b[off + 1] == b1);
    assert(b[off + 2] == b2);
    assert(b[off + 3] == b3);
}

/// The image size is the whole 32-bit `SizeOfImage` field: headers whose
/// `e_lfanew` bytes give a non-negative offset `nt`, with the bytes of `x`
/// at `nt + 0x50`, give exactly `x`.
pub proof fn lemma_size_of_image_reads_field(headers: Seq<u8>, nt: u32, x: u32)
    requires
        nt < 0x8000_0000,
        holds_le_bytes(headers, 0x3C, nt),
        holds_le_bytes(headers, nt + 0x50, x),
    ensures
        pe_size_of_image(headers) == Some(x),
{
    lemma_le_u32_reads_back(headers, 0x3C, nt);
    lemma_le_u32_reads_back(headers, nt + 0x50, x);
}

} // verus!

verus! {

/// The hexadecimal digits have their standard values: `0`–`9` are 0–9, and
/// `A`–`F` and `a`–`f` are 10–15.
pub proof fn lemma_hex_digit_values(i: int)
    requires
        0 <= i < 16,
    ensures
        hex_digit_value(seq!['0', '1', '2', '3', '4', '5', '6', '7', '8', '9', 'A', 'B', 'C', 'D', 'E', 'F'][i])
            == Some(i),
        hex_digit_value(seq!['0', '1', '2', '3', '4', '5', '6', '7', '8', '9', 'a', 'b', 'c', 'd', 'e', 'f'][i])
            == Some(i),
{
    let u = seq!['0', '1', '2', '3', '4', '5', '6', '7', '8', '9', 'A', 'B', 'C', 'D', 'E', 'F'];
    let l = seq!['0', '1', '2', '3', '4', '5', '6', '7', '8', '9', 'a', 'b', 'c', 'd', 'e', 'f'];
    if i < 10 {
        assert(u[i] as int == '0' as int + i);
        assert(l[i] as int == '0' as int + i);
    } else {
        assert(u[i] as int == 'A' as int + i - 10);
        assert(l[i] as int == 'a' as int + i - 10);
    }
}

/// A two-digit token is the byte its digits write, high digit first, as
/// `u8::from_str_radix(token, 16)` reads it.
pub proof fn lemma_two_digit_token(c1: char, c2: char, hi: int, lo: int)
    requires
        hex_digit_value(c1) == Some(hi),
        hex_digit_value(c2) == Some(lo),
    ensures
        0 <= hi < 16 && 0 <= lo < 16,
        parse_hex_byte(seq![c1, c2]) == Some((16 * hi + lo) as u8),
{
    let t = seq![c1, c2];
    assert(t[0] != '+');
    assert(all_hex_digits(t));
    assert(t.drop_last() =~= seq![c1]);
    assert(seq![c1].drop_last() =~= Seq::<char>::empty());
    assert(hex_value(Seq::<char>::empty()) == 0);
    assert(seq![c1].last() == c1);
    assert(hex_value(seq![c1]) == hi);
    assert(t.last() == c2);
    assert(hex_value(t) == 16 * hi + lo);
}

/// So every pair of digits, in either case, is read as its byte.
pub proof fn lemma_hex_byte_tokens(i: int, j: int)
    requires
        0 <= i < 16,
        0 <= j < 16,
    ensures
        parse_hex_byte(
            seq![
                seq!['0', '1', '2', '3', '4', '5', '6', '7', '8', '9', 'A', 'B', 'C', 'D', 'E', 'F'][i],
                seq!['0', '1', '2', '3', '4', '5', '6', '7', '8', '9', 'A', 'B', 'C', 'D', 'E', 'F'][j],
            ],
        ) == Some((16 * i + j) as u8),
        parse_hex_byte(
            seq![
                seq!['0', '1', '2', '3', '4', '5', '6', '7', '8', '9', 'a', 'b', 'c', 'd', 'e', 'f'][i],
                seq!['0', '1', '2', '3', '4', '5', '6', '7', '8', '9', 'a', 'b', 'c', 'd', 'e', 'f'][j],
            ],
        ) == Some((16 * i + j) as u8),
{
    lemma_hex_digit_values(i);
    lemma_hex_digit_values(j);
    let u = seq!['0', '1', '2', '3', '4', '5', '6', '7', '8', '9', 'A', 'B', 'C', 'D', 'E', 'F'];
    let l = seq!['0', '1', '2', '3', '4', '5', '6', '7', '8', '9', 'a', 'b', 'c', 'd', 'e', 'f'];
    lemma_two_digit_token(u[i], u[j], i, j);
    lemma_two_digit_token(l[i], l[j], i, j);
}

} // verus!
