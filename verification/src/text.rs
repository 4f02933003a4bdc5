//! Character-level helpers over the `Seq<char>` view of strings.

use vstd::prelude::*;

verus! {

/// The characters of `s`, in order.
pub fn chars_of(s: &str) -> (v: Vec<char>)
    ensures
        v@ == s@,
{
    let mut v: Vec<char> = Vec::new();
    for c in it: s.chars()
        invariant
            v@ == it.seq().take(it.index()),
    {
        v.push(c);
    }
    v
}

} // verus!

verus! {

/// `t` occurs in `s` starting at position `i`.
pub open spec fn occurs_at(s: Seq<char>, t: Seq<char>, i: int) -> bool {
    &&& 0 <= i
    &&& i + t.len() <= s.len()
    &&& forall|k: int| 0 <= k < t.len() ==> s[i + k] == t[k]
}

/// The first position at or after `start` where `t` occurs in `s`.
pub open spec fn find_from(s: Seq<char>, t: Seq<char>, start: int) -> Option<int>
    decreases s.len() - start,
{
    if start < 0 || start + t.len() > s.len() {
        None
    } else if occurs_at(s, t, start) {
        Some(start)
    } else {
        find_from(s, t, start + 1)
    }
}

/// `t` occurs somewhere in `s`.
pub open spec fn contains_seq(s: Seq<char>, t: Seq<char>) -> bool {
    find_from(s, t, 0) is Some
}

/// What `find_from` returns is an occurrence, and no earlier one exists.
pub proof fn lemma_find_from(s: Seq<char>, t: Seq<char>, start: int)
    requires
        0 <= start,
    ensures
        find_from(s, t, start) matches Some(i) ==> start <= i && occurs_at(s, t, i) && forall|
            j: int,
        | start <= j < i ==> !occurs_at(s, t, j),
        find_from(s, t, start) is None ==> forall|j: int| start <= j ==> !occurs_at(s, t, j),
    decreases s.len() - start,
{
    if start + t.len() > s.len() {
    } else if occurs_at(s, t, start) {
    } else {
        lemma_find_from(s, t, start + 1);
    }
}

fn occurs_at_exec(s: &Vec<char>, t: &Vec<char>, i: usize) -> (b: bool)
    requires
        i + t@.len() <= s@.len(),
    ensures
        b == occurs_at(s@, t@, i as int),
{
    let mut k: usize = 0;
    while k < t.len()
        invariant
            k <= t@.len(),
            i + t@.len() <= s@.len(),
            s@.len() == s.len(),
            forall|j: int| 0 <= j < k ==> s@[i + j] == t@[j],
        decreases t@.len() - k,
    {
        if s[i + k] != t[k] {
            return false;
        }
        k = k + 1;
    }
    true
}

/// The first index at or after `start` where `t` occurs in `s`.
pub fn find_seq_from(s: &Vec<char>, t: &Vec<char>, start: usize) -> (r: Option<usize>)
    ensures
        r matches Some(i) ==> find_from(s@, t@, start as int) == Some(i as int),
        r is None ==> find_from(s@, t@, start as int) is None,
{
    if t.len() > s.len() {
        return None;
    }
    let last = s.len() - t.len();
    let mut i = start;
    while i <= last
        invariant
            start <= i,
            last + t@.len() == s@.len(),
            find_from(s@, t@, start as int) == find_from(s@, t@, i as int),
        decreases last + 1 - i,
    {
        if occurs_at_exec(s, t, i) {
            return Some(i);
        }
        if i == last {
            assert(find_from(s@, t@, i + 1) is None);
            return None;
        }
        i = i + 1;
    }
    None
}

} // verus!

verus! {

/// Unicode White_Space, the property `char::is_whitespace` tests.
pub open spec fn is_unicode_whitespace(c: char) -> bool {
    let v = c as int;
    ||| 0x09 <= v <= 0x0D
    ||| v == 0x20
    ||| v == 0x85
    ||| v == 0xA0
    ||| v == 0x1680
    ||| 0x2000 <= v <= 0x200A
    ||| v == 0x2028
    ||| v == 0x2029
    ||| v == 0x202F
    ||| v == 0x205F
    ||| v == 0x3000
}

/// Whether `c` is Unicode white space.
pub fn is_whitespace(c: char) -> (b: bool)
    ensures
        b == is_unicode_whitespace(c),
{
    let v = c as u32;
    (0x09 <= v && v <= 0x0D) || v == 0x20 || v == 0x85 || v == 0xA0 || v == 0x1680 || (0x2000
        <= v && v <= 0x200A) || v == 0x2028 || v == 0x2029 || v == 0x202F || v == 0x205F || v
        == 0x3000
}

/// Splitting at white space, read left to right: the tokens completed so far
/// and the token being read.
pub open spec fn whitespace_split(s: Seq<char>) -> (Seq<Seq<char>>, Seq<char>)
    decreases s.len(),
{
    if s.len() == 0 {
        (Seq::empty(), Seq::empty())
    } else {
        let (done, cur) = whitespace_split(s.drop_last());
        let c = s.last();
        if is_unicode_whitespace(c) {
            if cur.len() > 0 {
                (done.push(cur), Seq::empty())
            } else {
                (done, Seq::empty())
            }
        } else {
            (done, cur.push(c))
        }
    }
}

/// The maximal runs of non-white-space characters of `s`, in order, as
/// `str::split_whitespace` yields them.
pub open spec fn whitespace_tokens(s: Seq<char>) -> Seq<Seq<char>> {
    let (done, cur) = whitespace_split(s);
    if cur.len() > 0 {
        done.push(cur)
    } else {
        done
    }
}

} // verus!

verus! {

/// `s` without its leading white space.
pub open spec fn trim_start_seq(s: Seq<char>) -> Seq<char>
    decreases s.len(),
{
    if s.len() > 0 && is_unicode_whitespace(s[0]) {
        trim_start_seq(s.drop_first())
    } else {
        s
    }
}

/// `s` without its trailing white space.
pub open spec fn trim_end_seq(s: Seq<char>) -> Seq<char>
    decreases s.len(),
{
    if s.len() > 0 && is_unicode_whitespace(s.last()) {
        trim_end_seq(s.drop_last())
    } else {
        s
    }
}

/// `s` without leading and trailing white space, as `str::trim` gives it.
pub open spec fn trim_seq(s: Seq<char>) -> Seq<char> {
    trim_end_seq(trim_start_seq(s))
}

/// The pieces of `s` between occurrences of `sep`, as `str::split` yields
/// them: one more piece than there are separators, empty pieces included.
pub open spec fn split_seq(s: Seq<char>, sep: char) -> Seq<Seq<char>>
    decreases s.len(),
{
    if s.len() == 0 {
        seq![Seq::empty()]
    } else {
        let parts = split_seq(s.drop_last(), sep);
        if s.last() == sep {
            parts.push(Seq::empty())
        } else {
            parts.update(parts.len() - 1, parts.last().push(s.last()))
        }
    }
}

/// ASCII lower case of one character; other characters are kept.
pub open spec fn ascii_lower(c: char) -> char {
    if 'A' <= c <= 'Z' {
        ((c as int) + 32) as char
    } else {
        c
    }
}

/// `str::eq_ignore_ascii_case`: equal once ASCII letters are folded to one
/// case.
pub open spec fn eq_ignore_ascii_case_seq(a: Seq<char>, b: Seq<char>) -> bool {
    &&& a.len() == b.len()
    &&& forall|k: int| 0 <= k < a.len() ==> ascii_lower(#[trigger] a[k]) == ascii_lower(b[k])
}

fn ascii_lower_exec(c: char) -> (r: u32)
    ensures
        r as int == ascii_lower(c) as int,
{
    proof { crate::utf16::lemma_char_is_scalar(c); }
    if 'A' <= c && c <= 'Z' {
        let v = (c as u32) + 32;
        assert((((c as int) + 32) as char) as int == c as int + 32);
        v
    } else {
        c as u32
    }
}

/// Whether `a` and `b` are equal up to ASCII case.
pub fn eq_ignore_ascii_case(a: &str, b: &str) -> (r: bool)
    ensures
        r == eq_ignore_ascii_case_seq(a@, b@),
{
    let x = chars_of(a);
    let y = chars_of(b);
    if x.len() != y.len() {
        return false;
    }
    let mut i: usize = 0;
    while i < x.len()
        invariant
            x@ == a@,
            y@ == b@,
            x@.len() == y@.len(),
            i <= x@.len(),
            forall|k: int| 0 <= k < i ==> ascii_lower(#[trigger] x@[k]) == ascii_lower(y@[k]),
        decreases x@.len() - i,
    {
        let p = ascii_lower_exec(x[i]);
        let q = ascii_lower_exec(y[i]);
        if p != q {
            assert(ascii_lower(x@[i as int]) != ascii_lower(y@[i as int]));
            return false;
        }
        i = i + 1;
    }
    true
}

} // verus!

verus! {

/// The character views of a sequence of strings.
pub open spec fn string_views(v: Seq<String>) -> Seq<Seq<char>> {
    Seq::new(v.len(), |i: int| v[i]@)
}

/// The bounds of `v[lo..hi]` without its leading and trailing white space.
pub fn trim_bounds(v: &Vec<char>, lo: usize, hi: usize) -> (r: (usize, usize))
    requires
        lo <= hi <= v@.len(),
    ensures
        lo <= r.0 <= r.1 <= hi,
        v@.subrange(r.0 as int, r.1 as int) == trim_seq(v@.subrange(lo as int, hi as int)),
{
    let mut a = lo;
    while a < hi && is_whitespace(v[a])
        invariant
            lo <= a <= hi <= v@.len(),
            trim_start_seq(v@.subrange(lo as int, hi as int)) == trim_start_seq(
                v@.subrange(a as int, hi as int),
            ),
        decreases hi - a,
    {
        assert(v@.subrange(a as int, hi as int).drop_first() =~= v@.subrange(a + 1, hi as int));
        a = a + 1;
    }
    assert(trim_start_seq(v@.subrange(a as int, hi as int)) == v@.subrange(a as int, hi as int));
    let mut b = hi;
    while b > a && is_whitespace(v[b - 1])
        invariant
            lo <= a <= b <= hi <= v@.len(),
            trim_seq(v@.subrange(lo as int, hi as int)) == trim_end_seq(
                v@.subrange(a as int, b as int),
            ),
        decreases b - a,
    {
        assert(v@.subrange(a as int, b as int).drop_last() =~= v@.subrange(a as int, b - 1));
        b = b - 1;
    }
    (a, b)
}

} // verus!

verus! {

proof fn lemma_trim_start_shape(s: Seq<char>)
    ensures
        exists|a: int| 0 <= a <= s.len() && trim_start_seq(s) == s.skip(a),
        trim_start_seq(s).len() > 0 ==> !is_unicode_whitespace(trim_start_seq(s)[0]),
    decreases s.len(),
{
    if s.len() > 0 && is_unicode_whitespace(s[0]) {
        lemma_trim_start_shape(s.drop_first());
        let a = choose|a: int| 0 <= a <= s.drop_first().len() && trim_start_seq(s.drop_first()) == s.drop_first().skip(a);
        assert(s.drop_first().skip(a) =~= s.skip(a + 1));
    } else {
        assert(s.skip(0) =~= s);
    }
}

proof fn lemma_trim_end_shape(s: Seq<char>)
    ensures
        trim_end_seq(s).len() <= s.len(),
        trim_end_seq(s) == s.take(trim_end_seq(s).len() as int),
        trim_end_seq(s).len() > 0 ==> !is_unicode_whitespace(trim_end_seq(s).last()),
    decreases s.len(),
{
    if s.len() > 0 && is_unicode_whitespace(s.last()) {
        lemma_trim_end_shape(s.drop_last());
        assert(s.drop_last().take(trim_end_seq(s).len() as int) =~= s.take(trim_end_seq(s).len() as int));
    } else {
        assert(s.take(s.len() as int) =~= s);
    }
}

/// Trimming keeps only characters that were there.
pub proof fn lemma_trim_within(s: Seq<char>, c: char)
    ensures
        trim_seq(s).contains(c) ==> s.contains(c),
{
    lemma_trim_start_shape(s);
    lemma_trim_end_shape(trim_start_seq(s));
    let a = choose|a: int| 0 <= a <= s.len() && trim_start_seq(s) == s.skip(a);
    if trim_seq(s).contains(c) {
        let k = choose|k: int| 0 <= k < trim_seq(s).len() && trim_seq(s)[k] == c;
        assert(trim_seq(s)[k] == trim_start_seq(s)[k]);
        assert(s[a + k] == c);
    }
}

/// Trimming a trimmed text changes nothing.
pub proof fn lemma_trim_idempotent(s: Seq<char>)
    ensures
        trim_seq(trim_seq(s)) == trim_seq(s),
{
    let t = trim_start_seq(s);
    let u = trim_end_seq(t);
    lemma_trim_start_shape(s);
    lemma_trim_end_shape(t);
    if u.len() > 0 {
        assert(u[0] == t[0]);
        assert(trim_start_seq(u) == u);
    } else {
        assert(trim_start_seq(u) == u);
    }
}

/// No piece of a split holds the separator.
pub proof fn lemma_split_pieces(s: Seq<char>, sep: char)
    ensures
        split_seq(s, sep).len() >= 1,
        forall|k: int| 0 <= k < split_seq(s, sep).len() ==> !(#[trigger] split_seq(s, sep)[k]).contains(sep),
    decreases s.len(),
{
    if s.len() > 0 {
        lemma_split_pieces(s.drop_last(), sep);
        let parts = split_seq(s.drop_last(), sep);
        if s.last() != sep {
            let l = parts.last().push(s.last());
            assert forall|k: int| 0 <= k < split_seq(s, sep).len() implies !(
            #[trigger] split_seq(s, sep)[k]).contains(sep) by {
                if k == parts.len() - 1 {
                    assert(split_seq(s, sep)[k] == l);
                    if l.contains(sep) {
                        let j = choose|j: int| 0 <= j < l.len() && l[j] == sep;
                        assert(parts.last()[j] == sep);
                        assert(parts[parts.len() - 1].contains(sep));
                    }
                } else {
                    assert(split_seq(s, sep)[k] == parts[k]);
                }
            }
        } else {
            assert forall|k: int| 0 <= k < split_seq(s, sep).len() implies !(
            #[trigger] split_seq(s, sep)[k]).contains(sep) by {
                if k < parts.len() {
                    assert(split_seq(s, sep)[k] == parts[k]);
                } else {
                    assert(split_seq(s, sep)[k] =~= Seq::<char>::empty());
                }
            }
        }
    }
}

} // verus!

verus! {

/// All of `w` is white space.
pub open spec fn all_whitespace(w: Seq<char>) -> bool {
    forall|k: int| 0 <= k < w.len() ==> is_unicode_whitespace(#[trigger] w[k])
}

proof fn lemma_split_append(x: Seq<char>, b: Seq<char>)
    requires
        whitespace_split(x).1.len() == 0,
    ensures
        whitespace_split(x + b) == (
            whitespace_split(x).0 + whitespace_split(b).0,
            whitespace_split(b).1,
        ),
    decreases b.len(),
{
    if b.len() == 0 {
        assert(x + b =~= x);
        assert(whitespace_split(x).0 + whitespace_split(b).0 =~= whitespace_split(x).0);
        assert(whitespace_split(x).1 =~= whitespace_split(b).1);
    } else {
        let b1 = b.drop_last();
        lemma_split_append(x, b1);
        assert((x + b).drop_last() =~= x + b1);
        assert((x + b).last() == b.last());
        let xs = whitespace_split(x).0;
        let (s1, c1) = whitespace_split(b1);
        if is_unicode_whitespace(b.last()) && c1.len() > 0 {
            assert((xs + s1).push(c1) =~= xs + s1.push(c1));
        }
    }
}

proof fn lemma_split_ws_suffix(a: Seq<char>, w: Seq<char>)
    requires
        w.len() > 0,
        all_whitespace(w),
    ensures
        whitespace_split(a + w) == (whitespace_tokens(a), Seq::<char>::empty()),
    decreases w.len(),
{
    let w1 = w.drop_last();
    assert((a + w).drop_last() =~= a + w1);
    assert((a + w).last() == w.last());
    assert(is_unicode_whitespace(w[w.len() - 1]));
    if w1.len() == 0 {
        assert(a + w1 =~= a);
    } else {
        assert(all_whitespace(w1)) by {
            assert forall|k: int| 0 <= k < w1.len() implies is_unicode_whitespace(#[trigger] w1[k]) by {
                assert(w1[k] == w[k]);
            }
        }
        lemma_split_ws_suffix(a, w1);
    }
}

/// White space between two texts separates their tokens and adds none:
/// the tokens of `a`, a run of white space, and `b` are those of `a`
/// followed by those of `b`.  So the amount and kind of white space between,
/// before or after tokens does not change them.
pub proof fn lemma_tokens_across_whitespace(a: Seq<char>, w: Seq<char>, b: Seq<char>)
    requires
        w.len() > 0,
        all_whitespace(w),
    ensures
        whitespace_tokens(a + w + b) == whitespace_tokens(a) + whitespace_tokens(b),
{
    lemma_split_ws_suffix(a, w);
    lemma_split_append(a + w, b);
    let ta = whitespace_tokens(a);
    let (sb, cb) = whitespace_split(b);
    if cb.len() > 0 {
        assert((ta + sb).push(cb) =~= ta + sb.push(cb));
    }
}

} // verus!

verus! {

/// None of `t` is white space.
pub open spec fn no_whitespace(t: Seq<char>) -> bool {
    forall|k: int| 0 <= k < t.len() ==> !is_unicode_whitespace(#[trigger] t[k])
}

/// `a` is empty or ends in white space: a token cannot run on past it.
pub open spec fn ends_token_boundary(a: Seq<char>) -> bool {
    a.len() == 0 || is_unicode_whitespace(a.last())
}

/// `b` is empty or starts with white space.
pub open spec fn starts_token_boundary(b: Seq<char>) -> bool {
    b.len() == 0 || is_unicode_whitespace(b[0])
}

proof fn lemma_split_run(t: Seq<char>)
    requires
        no_whitespace(t),
    ensures
        whitespace_split(t) == (Seq::<Seq<char>>::empty(), t),
    decreases t.len(),
{
    if t.len() > 0 {
        let t1 = t.drop_last();
        assert(no_whitespace(t1)) by {
            assert forall|k: int| 0 <= k < t1.len() implies !is_unicode_whitespace(#[trigger] t1[k]) by {
                assert(t1[k] == t[k]);
            }
        }
        lemma_split_run(t1);
        assert(!is_unicode_whitespace(t[t.len() - 1]));
        assert(t1.push(t.last()) =~= t);
    }
}

/// Texts joined at a token boundary: the tokens of `a + b` are those of `a`
/// followed by those of `b` when `a` is empty or ends in white space.
pub proof fn lemma_tokens_join(a: Seq<char>, b: Seq<char>)
    requires
        ends_token_boundary(a),
    ensures
        whitespace_tokens(a + b) == whitespace_tokens(a) + whitespace_tokens(b),
{
    if a.len() == 0 {
        assert(a + b =~= b);
        assert(whitespace_tokens(a) =~= Seq::<Seq<char>>::empty());
        assert(whitespace_tokens(a) + whitespace_tokens(b) =~= whitespace_tokens(b));
    } else {
        assert(whitespace_split(a).1.len() == 0);
        lemma_split_append(a, b);
        let ta = whitespace_tokens(a);
        let (sb, cb) = whitespace_split(b);
        if cb.len() > 0 {
            assert((ta + sb).push(cb) =~= ta + sb.push(cb));
        }
    }
}

/// A token standing between two token boundaries is one token of the text.
pub proof fn lemma_tokens_around(a: Seq<char>, t: Seq<char>, b: Seq<char>)
    requires
        ends_token_boundary(a),
        starts_token_boundary(b),
        t.len() > 0,
        no_whitespace(t),
    ensures
        whitespace_tokens(a + t + b) == whitespace_tokens(a) + seq![t] + whitespace_tokens(b),
{
    lemma_split_run(t);
    assert(whitespace_tokens(t) =~= seq![t]);
    assert(a + t + b =~= a + (t + b));
    lemma_tokens_join(a, t + b);
    if b.len() == 0 {
        assert(t + b =~= t);
        assert(whitespace_tokens(b) =~= Seq::<Seq<char>>::empty());
    } else {
        let w: Seq<char> = seq![b[0]];
        let rest = b.skip(1);
        assert(all_whitespace(w));
        assert(t + b =~= t + w + rest);
        lemma_tokens_across_whitespace(t, w, rest);
        let e: Seq<char> = Seq::empty();
        assert(b =~= e + w + rest);
        lemma_tokens_across_whitespace(e, w, rest);
        assert(whitespace_tokens(e) =~= Seq::<Seq<char>>::empty());
        assert(whitespace_tokens(b) =~= whitespace_tokens(rest));
    }
    assert(whitespace_tokens(a) + (seq![t] + whitespace_tokens(b)) =~= whitespace_tokens(a) + seq![t]
        + whitespace_tokens(b));
}

} // verus!
