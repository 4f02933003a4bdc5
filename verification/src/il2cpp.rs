//! The managed string object of the IL2CPP runtime, and the in-place and
//! out-of-place rewriting of its text.

use vstd::prelude::*;
use crate::redirect::{processIp, redirected_url};
use crate::utf16::{
    decode_utf16_lossy, encode_utf16, utf16_decode_lossy,
    utf16_encode,
};

verus! {

/// An IL2CPP `System.String` object, held by value.  `chars` is the
/// character storage that follows the header in memory; its length is the
/// number of UTF-16 units the object can hold.  `length` is the runtime's
/// own count of the units in use.
pub struct Il2CppString {
    /// Address of the class object (`m_pClass`).
    pub m_pClass: usize,
    /// Address of the monitor, zero when none is attached.
    pub monitor: usize,
    /// Number of UTF-16 units of text.
    pub length: i32,
    /// The UTF-16 storage.
    pub chars: Vec<u16>,
}

/// The number of UTF-16 units an object's inline storage always has.
pub const INLINE_CHARS: usize = 32;

/// Units of zeroed space past the storage of a freshly allocated object:
/// the header and inline storage take 84 bytes, padded to 88 for the
/// object's 8-byte alignment, so two more units follow the storage.
pub const TAIL_PADDING_UNITS: usize = 2;

/// `n` zero units.
pub open spec fn zeros(n: int) -> Seq<u16> {
    Seq::new(n as nat, |_i: int| 0u16)
}

impl Il2CppString {
    /// The object's storage holds every unit that `length` counts.
    pub open spec fn well_formed(&self) -> bool {
        self.length <= self.chars@.len()
    }

    /// The text the runtime sees.
    pub open spec fn text(&self) -> Seq<char> {
        text_of(self.length as int, self.chars@)
    }
}

/// The text of an object with the given length and storage: the first
/// `length` units, decoded; empty when `length` is not positive.
pub open spec fn text_of(length: int, chars: Seq<u16>) -> Seq<char> {
    if length <= 0 {
        Seq::empty()
    } else {
        utf16_decode_lossy(chars.take(length))
    }
}

/// The storage after `units` are written over the first `length` units of
/// `chars`: the new units, zeros up to `length`, then what lay beyond.
pub open spec fn replaced_storage(chars: Seq<u16>, length: int, units: Seq<u16>) -> Seq<u16> {
    units + zeros(length - units.len()) + chars.skip(length)
}

/// The number of units of zeroed space a fresh object holding `len` units
/// is allocated with: the inline storage, grown to `len` when the text is
/// longer, plus the tail padding.
pub open spec fn fresh_capacity(len: int) -> int {
    (if len < INLINE_CHARS { INLINE_CHARS as int } else { len }) + TAIL_PADDING_UNITS
}

/// The storage of a fresh object holding `units`: the units, then zeros to
/// the end of its zeroed allocation, so at least one zero unit follows the
/// text.
pub open spec fn fresh_storage(units: Seq<u16>) -> Seq<u16> {
    units + zeros(fresh_capacity(units.len() as int) - units.len())
}

/// Reads the text of an IL2CPP string: `None` for a missing object, the
/// empty string when its length is not positive, else its units decoded
/// (unpaired surrogates become U+FFFD).
pub fn Il2cppToString(strPtr: Option<&Il2CppString>) -> (r: Option<String>)
    requires
        strPtr matches Some(s) ==> s.well_formed(),
    ensures
        r is Some <==> strPtr is Some,
        strPtr matches Some(s) ==> r.unwrap()@ == s.text(),
{
    match strPtr {
        None => None,
        Some(s) => {
            if s.length <= 0 {
                return Some(String::new());
            }
            let n = s.length as usize;
            let units = &s.chars.as_slice()[0..n];
            assert(units@ =~= s.chars@.take(n as int));
            Some(decode_utf16_lossy(units))
        },
    }
}

/// Overwrites the text of `target` with `utf16Str` in place.  Refuses
/// (returns `false`, changing nothing) when the object is missing or the new
/// text is longer than its current length; otherwise writes the units,
/// clears the rest of the old text to zero, sets the length, and returns
/// `true`.
pub fn ReplaceIl2CppStringChars(target: Option<&mut Il2CppString>, utf16Str: &[u16]) -> (r: bool)
    requires
        target matches Some(t) ==> 0 <= t.length && t.well_formed(),
    ensures
        target is None ==> !r,
        target matches Some(t) ==> {
            &&& r == (utf16Str@.len() <= t.length)
            &&& r ==> {
                &&& final(t).chars@ == replaced_storage(t.chars@, t.length as int, utf16Str@)
                &&& final(t).length == utf16Str@.len()
                &&& final(t).m_pClass == t.m_pClass
                &&& final(t).monitor == t.monitor
                &&& final(t).well_formed()
            }
            &&& !r ==> *final(t) == *t
        },
{
    match target {
        None => false,
        Some(t) => {
            let capacity = t.length as usize;
            if utf16Str.len() > capacity {
                return false;
            }
            let ghost old_chars = t.chars@;
            let ghost class = t.m_pClass;
            let ghost monitor = t.monitor;
            let mut i: usize = 0;
            while i < capacity
                invariant
                    capacity == t.length,
                    t.m_pClass == class,
                    t.monitor == monitor,
                    capacity <= old_chars.len(),
                    utf16Str@.len() <= capacity,
                    t.chars@.len() == old_chars.len(),
                    i <= capacity,
                    forall|k: int| 0 <= k < i ==> t.chars@[k] == (if k < utf16Str@.len() { utf16Str@[k] } else { 0u16 }),
                    forall|k: int| i <= k < old_chars.len() ==> t.chars@[k] == old_chars[k],
                decreases capacity - i,
            {
                if i < utf16Str.len() {
                    t.chars.set(i, utf16Str[i]);
                } else {
                    t.chars.set(i, 0);
                }
                i = i + 1;
            }
            t.length = utf16Str.len() as i32;
            assert(t.chars@ =~= replaced_storage(old_chars, capacity as int, utf16Str@));
            true
        },
    }
}

/// Builds a new string object holding `s`, of the same class as `source`
/// and with no monitor, whose storage is the UTF-16 units of `s` followed by
/// zeros to the end of its allocation (see `fresh_capacity`).  `None` when
/// there is no source object.
pub fn CreateIl2CppString(s: &str, source: Option<&Il2CppString>) -> (r: Option<Il2CppString>)
    requires
        source is Some ==> utf16_encode(s@).len() <= i32::MAX,
    ensures
        r is Some <==> source is Some,
        source matches Some(o) ==> {
            let n = r.unwrap();
            &&& n.m_pClass == o.m_pClass
            &&& n.monitor == 0
            &&& n.length == utf16_encode(s@).len()
            &&& n.chars@ == fresh_storage(utf16_encode(s@))
            &&& n.well_formed()
        },
{
    match source {
        None => None,
        Some(o) => {
            let mut chars = encode_utf16(s);
            let len = chars.len();
            let capacity = (if len < INLINE_CHARS { INLINE_CHARS } else { len }) + TAIL_PADDING_UNITS;
            assert(chars@.take(len as int) =~= chars@);
            while chars.len() < capacity
                invariant
                    capacity == fresh_capacity(len as int),
                    len <= chars@.len() <= capacity,
                    chars@.take(len as int) == utf16_encode(s@),
                    forall|k: int| len <= k < chars@.len() ==> chars@[k] == 0u16,
                decreases capacity - chars@.len(),
            {
                chars.push(0);
            }
            assert(chars@ =~= fresh_storage(utf16_encode(s@)));
            Some(Il2CppString { m_pClass: o.m_pClass, monitor: 0, length: len as i32, chars })
        },
    }
}

} // verus!

verus! {

/// Text written in place is read back unchanged: after the UTF-16 units of
/// `n` are written over an object's text, the object's text is `n`.
pub proof fn lemma_replace_read_back(chars: Seq<u16>, length: int, n: Seq<char>)
    requires
        utf16_encode(n).len() <= length <= chars.len(),
    ensures
        text_of(utf16_encode(n).len() as int, replaced_storage(chars, length, utf16_encode(n))) == n,
{
    let u = utf16_encode(n);
    crate::utf16::lemma_decode_encode(n);
    assert(replaced_storage(chars, length, u).take(u.len() as int) =~= u);
    if u.len() == 0 {
        crate::utf16::lemma_encode_len(n);
    }
}

/// A freshly built object reads back the text it was built from.
pub proof fn lemma_fresh_read_back(n: Seq<char>)
    ensures
        text_of(utf16_encode(n).len() as int, fresh_storage(utf16_encode(n))) == n,
{
    let u = utf16_encode(n);
    crate::utf16::lemma_decode_encode(n);
    assert(fresh_storage(u).take(u.len() as int) =~= u);
    if u.len() == 0 {
        crate::utf16::lemma_encode_len(n);
    }
}

/// The redirect applied to the URL argument of a hooked call: when the
/// object's text is a URL to redirect, the redirected URL is written into
/// the object if it fits in the current length (result `None`), and
/// otherwise a new object of the same class is built for it (result `Some`),
/// the given object left as it was.  Other URLs leave the object as it was and
/// give `None`.
pub fn rewrite_url_argument(server_ip: &str, s: &mut Il2CppString) -> (r: Option<Il2CppString>)
    requires
        old(s).well_formed(),
        redirected_url(old(s).text(), server_ip@) matches Some(n) ==> (utf16_encode(n).len()
            > old(s).length ==> utf16_encode(n).len() <= i32::MAX),
    ensures
        match redirected_url(old(s).text(), server_ip@) {
            None => r is None && *final(s) == *old(s),
            Some(n) => {
                let u = utf16_encode(n);
                if u.len() <= old(s).length {
                    &&& r is None
                    &&& final(s).chars@ == replaced_storage(old(s).chars@, old(s).length as int, u)
                    &&& final(s).length == u.len()
                    &&& final(s).m_pClass == old(s).m_pClass
                    &&& final(s).monitor == old(s).monitor
                    &&& final(s).text() == n
                } else {
                    &&& *final(s) == *old(s)
                    &&& r matches Some(o) && o.m_pClass == old(s).m_pClass && o.monitor == 0
                        && o.length == u.len() && o.chars@ == fresh_storage(u) && o.text() == n
                }
            },
        },
{
    let text = Il2cppToString(Some(&*s)).unwrap();
    match processIp(text.as_str(), server_ip) {
        None => None,
        Some(n) => {
            let units = encode_utf16(n.as_str());
            proof {
                crate::redirect::lemma_empty_not_redirected();
            }
            if units.len() <= s.length as usize {
                proof { lemma_replace_read_back(s.chars@, s.length as int, n@); }
                ReplaceIl2CppStringChars(Some(s), units.as_slice());
                None
            } else {
                proof { lemma_fresh_read_back(n@); }
                CreateIl2CppString(n.as_str(), Some(&*s))
            }
        },
    }
}

} // verus!
