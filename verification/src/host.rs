//! Facts about the host process: which program was injected into, and where
//! the system's own `version.dll` is.

use vstd::prelude::*;
use crate::text::{chars_of, eq_ignore_ascii_case, eq_ignore_ascii_case_seq};
use crate::utf16::{encode_utf16, utf16_encode};

verus! {

/// A path separator: `\` or `/`.
pub open spec fn is_path_separator(c: char) -> bool {
    c == '\\' || c == '/'
}

/// The last component of a path: what follows its last separator, or the
/// whole path when it has none.
pub open spec fn file_name(path: Seq<char>) -> Seq<char>
    decreases path.len(),
{
    if path.len() == 0 {
        path
    } else if is_path_separator(path.last()) {
        Seq::empty()
    } else {
        file_name(path.drop_last()).push(path.last())
    }
}

/// The crash reporter that ships with Unity games, in either build.
pub open spec fn is_crash_handler_name(name: Seq<char>) -> bool {
    eq_ignore_ascii_case_seq(name, "UnityCrashHandler64.exe"@) || eq_ignore_ascii_case_seq(
        name,
        "UnityCrashHandler32.exe"@,
    )
}

/// Whether the program at `exe_path` is Unity's crash handler, judged by its
/// file name in any ASCII case.
pub fn IsUnityCrashHandler(exe_path: &str) -> (r: bool)
    ensures
        r == is_crash_handler_name(file_name(exe_path@)),
{
    let chars = chars_of(exe_path);
    let mut start: usize = chars.len();
    assert(chars@.take(chars@.len() as int) =~= chars@);
    assert(chars@.subrange(chars@.len() as int, chars@.len() as int) =~= Seq::<char>::empty());
    while start > 0 && chars[start - 1] != '\\' && chars[start - 1] != '/'
        invariant
            start <= chars@.len(),
            file_name(chars@) == file_name(chars@.take(start as int)) + chars@.subrange(
                start as int,
                chars@.len() as int,
            ),
        decreases start,
    {
        let ghost p = chars@.take(start as int);
        assert(p.drop_last() =~= chars@.take(start - 1));
        assert(file_name(p) == file_name(chars@.take(start - 1)).push(chars@[start - 1]));
        assert(chars@.subrange(start - 1, chars@.len() as int) =~= seq![chars@[start - 1]]
            + chars@.subrange(start as int, chars@.len() as int));
        start = start - 1;
    }
    assert(file_name(chars@.take(start as int)) =~= Seq::<char>::empty());
    assert(chars@.take(chars@.len() as int) =~= chars@);
    let name = exe_path.substring_char(start, chars.len());
    assert(name@ =~= file_name(exe_path@));
    eq_ignore_ascii_case(name, "UnityCrashHandler64.exe") || eq_ignore_ascii_case(
        name,
        "UnityCrashHandler32.exe",
    )
}

/// `MAX_PATH`, the size in units of the buffer the system directory is read
/// into.
pub const MAX_PATH: usize = 260;

/// The file appended to the system directory, with its terminating NUL.
pub const VERSION_DLL_SUFFIX: &'static str = "\\version.dll\0";

/// The NUL-terminated UTF-16 path of the system `version.dll`, from the
/// system directory as `GetSystemDirectoryW` wrote it: `None` when the call
/// reported failure (zero) or a length that does not fit the buffer.
pub open spec fn version_dll_path(dir: Seq<u16>, len: int) -> Option<Seq<u16>> {
    if len == 0 || len >= MAX_PATH {
        None
    } else {
        Some(dir.take(len) + utf16_encode(VERSION_DLL_SUFFIX@))
    }
}

/// Builds the path of the system `version.dll` from the system directory
/// read into `buffer` (`len` units long).
pub fn system_version_dll_path(buffer: &[u16], len: usize) -> (r: Option<Vec<u16>>)
    requires
        buffer@.len() == MAX_PATH,
    ensures
        r is Some <==> version_dll_path(buffer@, len as int) is Some,
        r matches Some(p) ==> p@ == version_dll_path(buffer@, len as int).unwrap(),
{
    if len == 0 || len >= MAX_PATH {
        return None;
    }
    let mut path: Vec<u16> = Vec::new();
    let mut i: usize = 0;
    while i < len
        invariant
            i <= len < MAX_PATH,
            buffer@.len() == MAX_PATH,
            path@ == buffer@.take(i as int),
        decreases len - i,
    {
        path.push(buffer[i]);
        assert(buffer@.take(i + 1) =~= buffer@.take(i as int).push(buffer@[i as int]));
        i = i + 1;
    }
    let mut suffix = encode_utf16(VERSION_DLL_SUFFIX);
    path.append(&mut suffix);
    Some(path)
}

} // verus!
