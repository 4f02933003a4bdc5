//! The redirector's settings file: where the private server is, and which
//! extra libraries to load.

use vstd::prelude::*;
use crate::document::{
    doc_get, doc_set, empty_document, find_section, lemma_get_after_set, lemma_set_keeps_rest,
    lemma_without_commute, lemma_without_single, lemma_find_section_push, without_key, Document,
};
use crate::text::{
    chars_of, eq_ignore_ascii_case, eq_ignore_ascii_case_seq, lemma_split_pieces,
    lemma_trim_idempotent, lemma_trim_within, split_seq, string_views, trim_bounds, trim_seq,
};

verus! {

#[verifier::external_type_specification]
#[verifier::external_body]
pub struct ExIni(ini::Ini);

#[verifier::external_type_specification]
#[verifier::external_body]
pub struct ExIniParseError(ini::ParseError);

/// The contents of a settings document: its sections in order (the
/// general section has no name), each with its key/value pairs in order.
pub uninterp spec fn ini_contents(conf: ini::Ini) -> Seq<(Option<Seq<char>>, Seq<(Seq<char>, Seq<char>)>)>;

/// The contents of the document that `text` parses to, `None` when the text
/// does not parse.
pub uninterp spec fn ini_parsed(text: Seq<char>) -> Option<Seq<(Option<Seq<char>>, Seq<(Seq<char>, Seq<char>)>)>>;

/// `ini::Ini::new`: a document holding only an empty general section.
#[verifier::external_body]
fn ini_new() -> (r: ini::Ini)
    ensures
        ini_contents(r) == empty_document(),
{
    ini::Ini::new()
}

/// `ini::Ini::load_from_str`: parses `text`; succeeds exactly when the text
/// parses, and then holds what it parses to.  An empty text parses to a
/// document holding only an empty general section.
#[verifier::external_body]
fn ini_load_from_str(text: &str) -> (r: Result<ini::Ini, ini::ParseError>)
    ensures
        r is Ok <==> ini_parsed(text@) is Some,
        r matches Ok(c) ==> ini_contents(c) == ini_parsed(text@).unwrap(),
        r is Ok || text@.len() > 0,
        r matches Ok(c) ==> (text@.len() == 0 ==> ini_contents(c) == empty_document()),
{
    ini::Ini::load_from_str(text)
}

/// `ini::Ini::get_from` with a named section: the first value of `key` in
/// the first section named `section`, if any.
#[verifier::external_body]
fn ini_get(conf: &ini::Ini, section: &str, key: &str) -> (r: Option<String>)
    ensures
        r is Some <==> doc_get(ini_contents(*conf), section@, key@) is Some,
        r matches Some(v) ==> Some(v@) == doc_get(ini_contents(*conf), section@, key@),
{
    match conf.get_from(Some(section), key) {
        Some(v) => Some(v.to_string()),
        None => None,
    }
}

/// `ini::Ini::with_section(..).set(..)`: in the first section named
/// `section` (appended at the end when there is none), removes every pair of
/// `key` and appends the new pair last.
#[verifier::external_body]
fn ini_set(conf: &mut ini::Ini, section: &str, key: &str, value: &str)
    ensures
        ini_contents(*final(conf)) == doc_set(ini_contents(*old(conf)), section@, key@, value@),
{
    conf.with_section(Some(section)).set(key, value);
}

/// The section of the settings file that the redirector owns.
pub const SECTION: &'static str = "SSRedirector, Made by Cyt";

/// The key of the server address.
pub const SERVER_IP_KEY: &'static str = "ServerIP";

/// The key of the list of extra libraries.
pub const EXTRA_DLLS_KEY: &'static str = "ExtraDLLs";

/// The server address used when none is configured.
pub const DEFAULT_SERVER_IP: &'static str = "http://127.0.0.1:21000";

/// The value that stands for "no extra libraries".
pub const NO_EXTRA_DLLS: &'static str = "None";

/// The name of the settings file, in the working directory.
pub const CONFIG_PATH: &'static str = ".\\SSRedirector.ini";

/// The byte-order mark that may open the settings file.
pub const BYTE_ORDER_MARK: char = '\u{FEFF}';

/// The settings document read from `text`: a leading byte-order mark is
/// skipped, and text that does not parse gives a document holding only an
/// empty general section.
pub open spec fn loaded_document(text: Seq<char>) -> Document {
    let body = if text.len() > 0 && text[0] == BYTE_ORDER_MARK {
        text.drop_first()
    } else {
        text
    };
    match ini_parsed(body) {
        Some(m) => m,
        None => empty_document(),
    }
}

/// Reads the settings document from the text of the settings file.
pub fn load_config(text: &str) -> (r: ini::Ini)
    ensures
        ini_contents(r) == loaded_document(text@),
        text@.len() == 0 ==> ini_contents(r) == empty_document(),
{
    let chars = chars_of(text);
    let parsed = if chars.len() > 0 && chars[0] == BYTE_ORDER_MARK {
        let len = text.unicode_len();
        ini_load_from_str(text.substring_char(1, len))
    } else {
        ini_load_from_str(text)
    };
    assert(chars@.len() > 0 ==> text@.drop_first() =~= text@.subrange(1, text@.len() as int));
    match parsed {
        Ok(c) => c,
        Err(_) => ini_new(),
    }
}

/// The configured value of `key` in the redirector's section.
pub open spec fn setting(doc: Document, key: Seq<char>) -> Option<Seq<char>> {
    doc_get(doc, SECTION@, key)
}

/// A value counts as set when it is present and not empty.
pub open spec fn is_set(v: Option<Seq<char>>) -> bool {
    v matches Some(s) && s.len() > 0
}

/// The server address in effect: the configured one when set, else the
/// default.
pub open spec fn effective_server_ip(v: Option<Seq<char>>) -> Seq<char> {
    if is_set(v) {
        v.unwrap()
    } else {
        DEFAULT_SERVER_IP@
    }
}

/// The list text in effect: the configured one when set and not `None` (in
/// any ASCII case), else empty.
pub open spec fn effective_dll_text(v: Option<Seq<char>>) -> Seq<char> {
    if is_set(v) && !eq_ignore_ascii_case_seq(v.unwrap(), NO_EXTRA_DLLS@) {
        v.unwrap()
    } else {
        Seq::empty()
    }
}

/// The trimmed, non-empty pieces among `parts`, in order.
pub open spec fn nonempty_trimmed(parts: Seq<Seq<char>>) -> Seq<Seq<char>>
    decreases parts.len(),
{
    if parts.len() == 0 {
        Seq::empty()
    } else {
        let prev = nonempty_trimmed(parts.drop_last());
        let t = trim_seq(parts.last());
        if t.len() > 0 {
            prev.push(t)
        } else {
            prev
        }
    }
}

/// The library names of a comma-separated list: each piece trimmed of
/// white space, empty pieces dropped.
pub open spec fn dll_names(text: Seq<char>) -> Seq<Seq<char>> {
    nonempty_trimmed(split_seq(text, ','))
}

/// Splits a comma-separated list of library names, trimming each and
/// dropping empty ones.
pub fn parse_dll_list(text: &str) -> (r: Vec<String>)
    ensures
        string_views(r@) == dll_names(text@),
{
    let chars = chars_of(text);
    let mut out: Vec<String> = Vec::new();
    let ghost mut done: Seq<Seq<char>> = Seq::empty();
    let mut seg: usize = 0;
    let mut i: usize = 0;
    assert(chars@.take(0) =~= Seq::<char>::empty());
    assert(split_seq(Seq::<char>::empty(), ',') =~= done.push(chars@.subrange(0, 0)));
    while i < chars.len()
        invariant
            chars@ == text@,
            seg <= i <= chars@.len(),
            split_seq(chars@.take(i as int), ',') == done.push(chars@.subrange(seg as int, i as int)),
            string_views(out@) == nonempty_trimmed(done),
        decreases chars@.len() - i,
    {
        let ghost prefix = chars@.take(i as int);
        assert(chars@.take(i + 1).drop_last() =~= prefix);
        assert(chars@.take(i + 1).last() == chars@[i as int]);
        if chars[i] == ',' {
            let (a, b) = trim_bounds(&chars, seg, i);
            proof {
                assert(done.push(chars@.subrange(seg as int, i as int)).drop_last() =~= done);
            }
            if a < b {
                out.push(String::from_str(text.substring_char(a, b)));
                assert(string_views(out@) =~= nonempty_trimmed(done.push(chars@.subrange(seg as int, i as int))));
            }
            proof {
                done = done.push(chars@.subrange(seg as int, i as int));
                assert(chars@.subrange(i + 1, i + 1) =~= Seq::<char>::empty());
            }
            seg = i + 1;
        } else {
            assert(chars@.subrange(seg as int, i as int).push(chars@[i as int]) =~= chars@.subrange(
                seg as int,
                i + 1,
            ));
            assert(done.push(chars@.subrange(seg as int, i as int)).update(
                done.len() as int,
                chars@.subrange(seg as int, i as int).push(chars@[i as int]),
            ) =~= done.push(chars@.subrange(seg as int, i + 1)));
        }
        i = i + 1;
    }
    assert(chars@.take(chars@.len() as int) =~= chars@);
    let (a, b) = trim_bounds(&chars, seg, chars.len());
    proof {
        assert(done.push(chars@.subrange(seg as int, chars@.len() as int)).drop_last() =~= done);
    }
    if a < b {
        out.push(String::from_str(text.substring_char(a, b)));
        assert(string_views(out@) =~= nonempty_trimmed(done.push(chars@.subrange(seg as int, chars@.len() as int))));
    }
    out
}

} // verus!

verus! {

/// The settings the redirector starts with.
pub struct ServerConfig {
    /// Address of the private server that game URLs are redirected to.
    pub server_ip: String,
    /// Names of extra libraries to load once the game is up.
    pub extra_dlls: Vec<String>,
    /// The settings file lacked a value and must be written back.
    pub need_write: bool,
}

/// The document after the missing settings are filled in with their
/// defaults: the default server address when no address is set, `None` when
/// no list is set.
pub open spec fn with_defaults(doc: Document) -> Document {
    let d = if is_set(setting(doc, SERVER_IP_KEY@)) {
        doc
    } else {
        doc_set(doc, SECTION@, SERVER_IP_KEY@, DEFAULT_SERVER_IP@)
    };
    if is_set(setting(doc, EXTRA_DLLS_KEY@)) {
        d
    } else {
        doc_set(d, SECTION@, EXTRA_DLLS_KEY@, NO_EXTRA_DLLS@)
    }
}

/// Reads the redirector's settings from `conf`, filling in the defaults of
/// missing or empty ones: the server address (default
/// `http://127.0.0.1:21000`) and the comma-separated list of extra
/// libraries (default `None`, which in any ASCII case means none).  Reports
/// whether a default was filled in, in which case the file is to be
/// written back.
pub fn InitServerIp(conf: &mut ini::Ini) -> (r: ServerConfig)
    ensures
        r.server_ip@ == effective_server_ip(setting(ini_contents(*old(conf)), SERVER_IP_KEY@)),
        setting(ini_contents(*old(conf)), SERVER_IP_KEY@) matches Some(ip) ==> (ip.len() > 0
            ==> r.server_ip@ == ip),
        string_views(r.extra_dlls@) == dll_names(
            effective_dll_text(setting(ini_contents(*old(conf)), EXTRA_DLLS_KEY@)),
        ),
        r.need_write == (!is_set(setting(ini_contents(*old(conf)), SERVER_IP_KEY@)) || !is_set(
            setting(ini_contents(*old(conf)), EXTRA_DLLS_KEY@),
        )),
        ini_contents(*final(conf)) == with_defaults(ini_contents(*old(conf))),
{
    let ghost doc = ini_contents(*conf);
    let server_ip_value = ini_get(conf, SECTION, SERVER_IP_KEY);
    let extra_dlls_value = ini_get(conf, SECTION, EXTRA_DLLS_KEY);
    let mut need_write = false;
    let server_ip = match server_ip_value {
        Some(ip) if !ip.as_str().is_empty() => ip,
        _ => {
            ini_set(conf, SECTION, SERVER_IP_KEY, DEFAULT_SERVER_IP);
            need_write = true;
            String::from_str(DEFAULT_SERVER_IP)
        },
    };
    let extra_dlls_str = match extra_dlls_value {
        Some(val) if !val.as_str().is_empty() => {
            if eq_ignore_ascii_case(val.as_str(), NO_EXTRA_DLLS) {
                String::new()
            } else {
                val
            }
        },
        _ => {
            ini_set(conf, SECTION, EXTRA_DLLS_KEY, NO_EXTRA_DLLS);
            need_write = true;
            String::new()
        },
    };
    let extra_dlls = parse_dll_list(extra_dlls_str.as_str());
    ServerConfig { server_ip, extra_dlls, need_write }
}

/// Filling in defaults is done once: a document whose defaults were filled
/// in has every setting set, gives the same server address and library list
/// as before, and is left as it is by a second filling in.
pub proof fn lemma_defaults_settle(doc: Document)
    ensures
        is_set(setting(with_defaults(doc), SERVER_IP_KEY@)),
        is_set(setting(with_defaults(doc), EXTRA_DLLS_KEY@)),
        with_defaults(with_defaults(doc)) == with_defaults(doc),
        effective_server_ip(setting(with_defaults(doc), SERVER_IP_KEY@)) == effective_server_ip(
            setting(doc, SERVER_IP_KEY@),
        ),
        effective_dll_text(setting(with_defaults(doc), EXTRA_DLLS_KEY@)) == effective_dll_text(
            setting(doc, EXTRA_DLLS_KEY@),
        ),
{
    reveal_strlit("ServerIP");
    reveal_strlit("ExtraDLLs");
    reveal_strlit("http://127.0.0.1:21000");
    reveal_strlit("None");
    assert(SERVER_IP_KEY@ != EXTRA_DLLS_KEY@) by {
        assert(SERVER_IP_KEY@.len() != EXTRA_DLLS_KEY@.len());
    }
    assert(eq_ignore_ascii_case_seq(NO_EXTRA_DLLS@, NO_EXTRA_DLLS@));
    let d1 = if is_set(setting(doc, SERVER_IP_KEY@)) {
        doc
    } else {
        doc_set(doc, SECTION@, SERVER_IP_KEY@, DEFAULT_SERVER_IP@)
    };
    lemma_get_after_set(doc, SECTION@, SERVER_IP_KEY@, DEFAULT_SERVER_IP@, SECTION@, SERVER_IP_KEY@);
    lemma_get_after_set(doc, SECTION@, SERVER_IP_KEY@, DEFAULT_SERVER_IP@, SECTION@, EXTRA_DLLS_KEY@);
    lemma_get_after_set(d1, SECTION@, EXTRA_DLLS_KEY@, NO_EXTRA_DLLS@, SECTION@, SERVER_IP_KEY@);
    lemma_get_after_set(d1, SECTION@, EXTRA_DLLS_KEY@, NO_EXTRA_DLLS@, SECTION@, EXTRA_DLLS_KEY@);
}

} // verus!

verus! {

proof fn lemma_nonempty_trimmed_clean(parts: Seq<Seq<char>>, sep: char)
    requires
        forall|k: int| 0 <= k < parts.len() ==> !(#[trigger] parts[k]).contains(sep),
    ensures
        forall|k: int|
            0 <= k < nonempty_trimmed(parts).len() ==> {
                let name = #[trigger] nonempty_trimmed(parts)[k];
                &&& name.len() > 0
                &&& !name.contains(sep)
                &&& trim_seq(name) == name
            },
    decreases parts.len(),
{
    if parts.len() > 0 {
        let prev = parts.drop_last();
        assert forall|k: int| 0 <= k < prev.len() implies !(#[trigger] prev[k]).contains(sep) by {
            assert(prev[k] == parts[k]);
        }
        lemma_nonempty_trimmed_clean(prev, sep);
        let t = trim_seq(parts.last());
        lemma_trim_within(parts.last(), sep);
        lemma_trim_idempotent(parts.last());
        assert(!parts[parts.len() - 1].contains(sep));
        let r = nonempty_trimmed(parts);
        let pr = nonempty_trimmed(prev);
        assert forall|k: int| 0 <= k < r.len() implies {
            let name = #[trigger] r[k];
            &&& name.len() > 0
            &&& !name.contains(sep)
            &&& trim_seq(name) == name
        } by {
            if k < pr.len() {
                assert(r[k] == pr[k]);
            } else {
                assert(r[k] == t);
            }
        }
    }
}

/// Every library name taken from a list is non-empty, holds no comma, and
/// has no white space at either end.
pub proof fn lemma_dll_names_clean(text: Seq<char>)
    ensures
        forall|k: int|
            0 <= k < dll_names(text).len() ==> {
                let name = #[trigger] dll_names(text)[k];
                &&& name.len() > 0
                &&& !name.contains(',')
                &&& trim_seq(name) == name
            },
{
    lemma_split_pieces(text, ',');
    lemma_nonempty_trimmed_clean(split_seq(text, ','), ',');
}

} // verus!

verus! {

/// Filling in defaults keeps everything else: the general section, every
/// other section, repeated sections of the redirector's name, and every pair
/// of the redirector's section whose key is not one that was filled in,
/// all in place and in order.  Without a section of the redirector's name,
/// one is appended at the end holding only the filled-in pairs.
pub proof fn lemma_defaults_keep_rest(doc: Document)
    ensures
        ({
            let r = with_defaults(doc);
            &&& forall|j: int| 0 <= j < doc.len() ==> #[trigger] r[j].0 == doc[j].0
            &&& forall|j: int|
                0 <= j < doc.len() && find_section(doc, Some(SECTION@), 0) != Some(j) ==> #[trigger] r[j]
                    == doc[j]
            &&& match find_section(doc, Some(SECTION@), 0) {
                Some(i) => {
                    &&& r.len() == doc.len()
                    &&& without_key(without_key(r[i].1, SERVER_IP_KEY@), EXTRA_DLLS_KEY@) == without_key(
                        without_key(doc[i].1, SERVER_IP_KEY@),
                        EXTRA_DLLS_KEY@,
                    )
                },
                None => {
                    &&& r.len() == doc.len() || r.len() == doc.len() + 1
                    &&& r.len() == doc.len() + 1 ==> r.last().0 == Some(SECTION@) && without_key(
                        without_key(r.last().1, SERVER_IP_KEY@),
                        EXTRA_DLLS_KEY@,
                    ) == Seq::<(Seq<char>, Seq<char>)>::empty()
                },
            }
        }),
{
    reveal_strlit("ServerIP");
    reveal_strlit("ExtraDLLs");
    assert(SERVER_IP_KEY@ != EXTRA_DLLS_KEY@) by {
        assert(SERVER_IP_KEY@.len() != EXTRA_DLLS_KEY@.len());
    }
    let d1 = if is_set(setting(doc, SERVER_IP_KEY@)) {
        doc
    } else {
        doc_set(doc, SECTION@, SERVER_IP_KEY@, DEFAULT_SERVER_IP@)
    };
    lemma_set_keeps_rest(doc, SECTION@, SERVER_IP_KEY@, DEFAULT_SERVER_IP@);
    lemma_set_keeps_rest(d1, SECTION@, EXTRA_DLLS_KEY@, NO_EXTRA_DLLS@);
    let r = with_defaults(doc);
    match find_section(doc, Some(SECTION@), 0) {
        Some(i) => {
            assert(find_section(d1, Some(SECTION@), 0) == Some(i));
            lemma_without_commute(r[i].1, SERVER_IP_KEY@, EXTRA_DLLS_KEY@);
            lemma_without_commute(d1[i].1, SERVER_IP_KEY@, EXTRA_DLLS_KEY@);
            lemma_without_commute(doc[i].1, SERVER_IP_KEY@, EXTRA_DLLS_KEY@);
            if !is_set(setting(doc, EXTRA_DLLS_KEY@)) {
                assert(without_key(r[i].1, EXTRA_DLLS_KEY@) == without_key(d1[i].1, EXTRA_DLLS_KEY@));
            }
            if !is_set(setting(doc, SERVER_IP_KEY@)) {
                assert(without_key(d1[i].1, SERVER_IP_KEY@) == without_key(doc[i].1, SERVER_IP_KEY@));
            }
        },
        None => {
            assert(!is_set(setting(doc, SERVER_IP_KEY@)));
            assert(!is_set(setting(doc, EXTRA_DLLS_KEY@)));
            let p1: Seq<(Seq<char>, Seq<char>)> = seq![(SERVER_IP_KEY@, DEFAULT_SERVER_IP@)];
            assert(d1 == doc.push((Some(SECTION@), p1)));
            lemma_set_keeps_rest(doc, SECTION@, SERVER_IP_KEY@, DEFAULT_SERVER_IP@);
            lemma_find_section_push(doc, (Some(SECTION@), p1), Some(SECTION@), 0);
            assert(find_section(d1, Some(SECTION@), 0) == Some(doc.len() as int));
            assert(r.len() == doc.len() + 1);
            assert forall|j: int| 0 <= j < doc.len() implies #[trigger] r[j] == doc[j] by {
                assert(r[j] == d1[j]);
                assert(d1[j] == doc[j]);
            }
            let last = r.last().1;
            assert(r.last() == r[doc.len() as int]);
            lemma_without_single(SERVER_IP_KEY@, DEFAULT_SERVER_IP@, SERVER_IP_KEY@);
            lemma_without_single(SERVER_IP_KEY@, DEFAULT_SERVER_IP@, EXTRA_DLLS_KEY@);
            lemma_without_commute(last, SERVER_IP_KEY@, EXTRA_DLLS_KEY@);
            lemma_without_commute(p1, SERVER_IP_KEY@, EXTRA_DLLS_KEY@);
            assert(without_key(last, EXTRA_DLLS_KEY@) == without_key(p1, EXTRA_DLLS_KEY@));
        },
    }
}

/// A settings file that is missing (read as empty text) or does not parse
/// is read as a document with only an empty general section; filling in the
/// defaults then gives exactly that section followed by the redirector's
/// section holding the default server address and `None`, in that order.
pub proof fn lemma_defaults_of_empty_document()
    ensures
        !is_set(setting(empty_document(), SERVER_IP_KEY@)),
        !is_set(setting(empty_document(), EXTRA_DLLS_KEY@)),
        with_defaults(empty_document()) == seq![
            (None::<Seq<char>>, Seq::<(Seq<char>, Seq<char>)>::empty()),
            (Some(SECTION@), seq![(SERVER_IP_KEY@, DEFAULT_SERVER_IP@), (EXTRA_DLLS_KEY@, NO_EXTRA_DLLS@)]),
        ],
{
    reveal_strlit("ServerIP");
    reveal_strlit("ExtraDLLs");
    assert(SERVER_IP_KEY@ != EXTRA_DLLS_KEY@) by {
        assert(SERVER_IP_KEY@.len() != EXTRA_DLLS_KEY@.len());
    }
    let e = empty_document();
    assert(find_section(e, Some(SECTION@), 1) is None);
    assert(find_section(e, Some(SECTION@), 0) is None);
    let p1: Seq<(Seq<char>, Seq<char>)> = seq![(SERVER_IP_KEY@, DEFAULT_SERVER_IP@)];
    let d1 = doc_set(e, SECTION@, SERVER_IP_KEY@, DEFAULT_SERVER_IP@);
    assert(d1 == e.push((Some(SECTION@), p1)));
    assert(d1[0].0 == None::<Seq<char>>);
    assert(d1[1].0 == Some(SECTION@));
    assert(find_section(d1, Some(SECTION@), 1) == Some(1int));
    assert(find_section(d1, Some(SECTION@), 0) == Some(1int));
    lemma_without_single(SERVER_IP_KEY@, DEFAULT_SERVER_IP@, EXTRA_DLLS_KEY@);
    assert(p1.push((EXTRA_DLLS_KEY@, NO_EXTRA_DLLS@)) =~= seq![(SERVER_IP_KEY@, DEFAULT_SERVER_IP@), (EXTRA_DLLS_KEY@, NO_EXTRA_DLLS@)]);
    assert(with_defaults(e) =~= seq![
        (None::<Seq<char>>, Seq::<(Seq<char>, Seq<char>)>::empty()),
        (Some(SECTION@), seq![(SERVER_IP_KEY@, DEFAULT_SERVER_IP@), (EXTRA_DLLS_KEY@, NO_EXTRA_DLLS@)]),
    ]);
}

} // verus!

verus! {

/// Library names written as a comma-separated list.
pub open spec fn comma_list(names: Seq<Seq<char>>) -> Seq<char>
    decreases names.len(),
{
    if names.len() == 0 {
        Seq::empty()
    } else if names.len() == 1 {
        names[0]
    } else {
        comma_list(names.drop_last()) + seq![','] + names.last()
    }
}

/// A name that a list can hold as it is: not empty, without a comma, and
/// without white space at either end.
pub open spec fn clean_name(n: Seq<char>) -> bool {
    n.len() > 0 && !n.contains(',') && trim_seq(n) == n
}

proof fn lemma_split_no_sep(n: Seq<char>)
    requires
        !n.contains(','),
    ensures
        split_seq(n, ',') == seq![n],
    decreases n.len(),
{
    if n.len() > 0 {
        let n1 = n.drop_last();
        assert(!n1.contains(',')) by {
            if n1.contains(',') {
                let k = choose|k: int| 0 <= k < n1.len() && n1[k] == ',';
                assert(n[k] == ',');
            }
        }
        lemma_split_no_sep(n1);
        assert(n[n.len() - 1] != ',');
        assert(n1.push(n.last()) =~= n);
        assert(seq![n1].update(0, n1.push(n.last())) =~= seq![n]);
    } else {
        assert(n =~= Seq::<char>::empty());
    }
}

proof fn lemma_split_after_sep(x: Seq<char>, n: Seq<char>)
    requires
        !n.contains(','),
    ensures
        split_seq(x + seq![','] + n, ',') == split_seq(x, ',').push(n),
    decreases n.len(),
{
    let xs = x + seq![','];
    if n.len() == 0 {
        assert(xs + n =~= xs);
        assert(xs.drop_last() =~= x);
        assert(xs.last() == ',');
        assert(n =~= Seq::<char>::empty());
        assert(split_seq(xs, ',') == split_seq(x, ',').push(Seq::<char>::empty()));
    } else {
        let n1 = n.drop_last();
        assert(!n1.contains(',')) by {
            if n1.contains(',') {
                let k = choose|k: int| 0 <= k < n1.len() && n1[k] == ',';
                assert(n[k] == ',');
            }
        }
        lemma_split_after_sep(x, n1);
        assert((xs + n).drop_last() =~= xs + n1);
        assert((xs + n).last() == n.last());
        assert(n[n.len() - 1] != ',');
        let p = split_seq(x, ',');
        let parts = split_seq(xs + n1, ',');
        assert(parts == p.push(n1));
        assert(parts.last() == n1);
        assert(split_seq(xs + n, ',') == parts.update(parts.len() - 1, parts.last().push(n.last())));
        assert(n1.push(n.last()) =~= n);
        assert(p.push(n1).update(p.len() as int, n1.push(n.last())) =~= p.push(n));
    }
}

proof fn lemma_split_comma_list(names: Seq<Seq<char>>)
    requires
        names.len() > 0,
        forall|k: int| 0 <= k < names.len() ==> !(#[trigger] names[k]).contains(','),
    ensures
        split_seq(comma_list(names), ',') == names,
    decreases names.len(),
{
    if names.len() == 1 {
        lemma_split_no_sep(names[0]);
        assert(seq![names[0]] =~= names);
    } else {
        let front = names.drop_last();
        assert forall|k: int| 0 <= k < front.len() implies !(#[trigger] front[k]).contains(',') by {
            assert(front[k] == names[k]);
        }
        lemma_split_comma_list(front);
        assert(!names[names.len() - 1].contains(','));
        lemma_split_after_sep(comma_list(front), names.last());
        assert(front.push(names.last()) =~= names);
    }
}

proof fn lemma_clean_names_kept(names: Seq<Seq<char>>)
    requires
        forall|k: int| 0 <= k < names.len() ==> clean_name(#[trigger] names[k]),
    ensures
        nonempty_trimmed(names) == names,
    decreases names.len(),
{
    if names.len() > 0 {
        let front = names.drop_last();
        assert forall|k: int| 0 <= k < front.len() implies clean_name(#[trigger] front[k]) by {
            assert(front[k] == names[k]);
        }
        lemma_clean_names_kept(front);
        assert(clean_name(names[names.len() - 1]));
        assert(front.push(names.last()) =~= names);
    }
}

/// No library is lost or changed: a comma-separated list of clean names
/// reads back as exactly those names, in order.
pub proof fn lemma_dll_list_reads_back(names: Seq<Seq<char>>)
    requires
        forall|k: int| 0 <= k < names.len() ==> clean_name(#[trigger] names[k]),
    ensures
        dll_names(comma_list(names)) == names,
{
    lemma_clean_names_kept(names);
    if names.len() == 0 {
        let e: Seq<char> = Seq::empty();
        assert(split_seq(e, ',') == seq![e]);
        assert(trim_seq(e) =~= e);
        assert(seq![e].drop_last() =~= Seq::<Seq<char>>::empty());
        assert(nonempty_trimmed(seq![e]) =~= Seq::<Seq<char>>::empty());
        assert(names =~= Seq::<Seq<char>>::empty());
    } else {
        assert forall|k: int| 0 <= k < names.len() implies !(#[trigger] names[k]).contains(',') by {
            assert(clean_name(names[k]));
        }
        lemma_split_comma_list(names);
    }
}

} // verus!

verus! {

/// A configured server address is used exactly as written, whatever it
/// says; only a missing or empty one is replaced by the default.
pub proof fn lemma_server_address_verbatim(doc: Document, ip: Seq<char>)
    requires
        doc_get(doc, SECTION@, SERVER_IP_KEY@) == Some(ip),
    ensures
        ip.len() > 0 ==> effective_server_ip(setting(doc, SERVER_IP_KEY@)) == ip,
        ip.len() == 0 ==> effective_server_ip(setting(doc, SERVER_IP_KEY@)) == DEFAULT_SERVER_IP@,
{
}

} // verus!
