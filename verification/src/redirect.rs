//! Rewriting of game-service URLs to the configured private server.

use vstd::prelude::*;
use crate::text::{chars_of, contains_seq, find_from, find_seq_from, lemma_find_from, occurs_at};

verus! {

/// The host names whose URLs are redirected.
pub open spec fn redirect_domains() -> Seq<Seq<char>> {
    seq![
        "yostarplat.com"@,
        "stellasora.global"@,
        "stellasora.kr"@,
        "stellasora.jp"@,
        "stargazer-games.com"@,
        "yostar.cn"@,
    ]
}

/// The scheme separator `://`.
pub open spec fn scheme_separator() -> Seq<char> {
    seq![':', '/', '/']
}

/// `url` mentions one of the redirected host names anywhere in its text.
pub open spec fn is_redirected_url(url: Seq<char>) -> bool {
    exists|k: int| 0 <= k < redirect_domains().len() && contains_seq(url, #[trigger] redirect_domains()[k])
}

/// The part of `url` that is kept: from the first `/` after the first `://`
/// to the end; empty when there is no `://` or no `/` after it.
pub open spec fn url_path(url: Seq<char>) -> Seq<char> {
    match find_from(url, scheme_separator(), 0) {
        Some(p) => match find_from(url, seq!['/'], p + 3) {
            Some(q) => url.skip(q),
            None => Seq::empty(),
        },
        None => Seq::empty(),
    }
}

/// The redirected form of `url`: the server address followed by the path of
/// `url`, or `None` when `url` is not one to redirect.
pub open spec fn redirected_url(url: Seq<char>, server: Seq<char>) -> Option<Seq<char>> {
    if is_redirected_url(url) {
        Some(server + url_path(url))
    } else {
        None
    }
}

fn redirect_domain(k: usize) -> (d: &'static str)
    requires
        k < redirect_domains().len(),
    ensures
        d@ == redirect_domains()[k as int],
{
    match k {
        0 => "yostarplat.com",
        1 => "stellasora.global",
        2 => "stellasora.kr",
        3 => "stellasora.jp",
        4 => "stargazer-games.com",
        _ => "yostar.cn",
    }
}

/// Rewrites `oUrl` to point at `server_ip` when it names one of the game's
/// service hosts: the result is `server_ip` followed by the path of `oUrl`
/// (everything from the first `/` after `://`).  URLs of other hosts give
/// `None`.
pub fn processIp(oUrl: &str, server_ip: &str) -> (r: Option<String>)
    ensures
        r is None <==> redirected_url(oUrl@, server_ip@) is None,
        r matches Some(n) ==> redirected_url(oUrl@, server_ip@) == Some(n@),
        r is Some <==> (contains_seq(oUrl@, "yostarplat.com"@) || contains_seq(
            oUrl@,
            "stellasora.global"@,
        ) || contains_seq(oUrl@, "stellasora.kr"@) || contains_seq(oUrl@, "stellasora.jp"@)
            || contains_seq(oUrl@, "stargazer-games.com"@) || contains_seq(oUrl@, "yostar.cn"@)),
{
    proof {
        lemma_redirects_exactly_the_game_hosts(oUrl@, server_ip@);
    }
    let url = chars_of(oUrl);
    let mut found = false;
    let mut k: usize = 0;
    while k < 6
        invariant
            redirect_domains().len() == 6,
            url@ == oUrl@,
            k <= 6,
            found <==> exists|j: int| 0 <= j < k && contains_seq(url@, #[trigger] redirect_domains()[j]),
        decreases 6 - k,
    {
        let domain = chars_of(redirect_domain(k));
        if find_seq_from(&url, &domain, 0).is_some() {
            found = true;
        }
        k = k + 1;
    }
    if !found {
        return None;
    }
    let mut n = String::from_str(server_ip);
    let sep = vec![':', '/', '/'];
    assert(sep@ == scheme_separator());
    if let Some(p) = find_seq_from(&url, &sep, 0) {
        proof { lemma_find_from(url@, sep@, 0); }
        let slash = vec!['/'];
        assert(slash@ == seq!['/']);
        if let Some(q) = find_seq_from(&url, &slash, p + 3) {
            proof { lemma_find_from(url@, slash@, p + 3); }
            let len = oUrl.unicode_len();
            let tail = oUrl.substring_char(q, len);
            n.append(tail);
        }
    }
    Some(n)
}

} // verus!

verus! {

/// The kept path is a suffix of the URL, never longer than it.
pub proof fn lemma_url_path_len(url: Seq<char>)
    ensures
        url_path(url).len() <= url.len(),
{
    crate::text::lemma_find_from(url, scheme_separator(), 0);
    if let Some(p) = find_from(url, scheme_separator(), 0) {
        crate::text::lemma_find_from(url, seq!['/'], p + 3);
    }
}

} // verus!

verus! {

/// An empty text names no host, so it is never redirected.
pub proof fn lemma_empty_not_redirected()
    ensures
        !is_redirected_url(Seq::<char>::empty()),
{
    reveal_strlit("yostarplat.com");
    reveal_strlit("stellasora.global");
    reveal_strlit("stellasora.kr");
    reveal_strlit("stellasora.jp");
    reveal_strlit("stargazer-games.com");
    reveal_strlit("yostar.cn");
    assert forall|k: int| 0 <= k < redirect_domains().len() implies !contains_seq(
        Seq::<char>::empty(),
        #[trigger] redirect_domains()[k],
    ) by {
        assert(redirect_domains()[k].len() > 0);
    }
}

} // verus!

verus! {

/// A redirected URL is the server address followed by a tail of the
/// given URL that is empty or starts with `/`.
pub proof fn lemma_redirect_shape(url: Seq<char>, server: Seq<char>)
    requires
        redirected_url(url, server) is Some,
    ensures
        ({
            let n = redirected_url(url, server).unwrap();
            &&& n.take(server.len() as int) == server
            &&& exists|i: int| 0 <= i <= url.len() && #[trigger] url.skip(i) == n.skip(server.len() as int)
            &&& n.len() > server.len() ==> n[server.len() as int] == '/'
        }),
{
    let n = redirected_url(url, server).unwrap();
    assert(n.take(server.len() as int) =~= server);
    crate::text::lemma_find_from(url, scheme_separator(), 0);
    match find_from(url, scheme_separator(), 0) {
        Some(p) => {
            crate::text::lemma_find_from(url, seq!['/'], p + 3);
            match find_from(url, seq!['/'], p + 3) {
                Some(q) => {
                    assert(url.skip(q) =~= n.skip(server.len() as int));
                    assert(url[q + 0] == seq!['/'][0]);
                    assert(n[server.len() as int] == url[q]);
                },
                None => {
                    assert(url.skip(url.len() as int) =~= n.skip(server.len() as int));
                },
            }
        },
        None => {
            assert(url.skip(url.len() as int) =~= n.skip(server.len() as int));
        },
    }
}

} // verus!

verus! {

proof fn lemma_scheme_first(s: Seq<char>, rest: Seq<char>)
    requires
        !contains_seq(s, scheme_separator()),
        rest.len() >= 3,
        rest[0] == ':',
        rest[1] == '/',
        rest[2] == '/',
    ensures
        find_from(s + rest, scheme_separator(), 0) == Some(s.len() as int),
{
    let sep = scheme_separator();
    let u = s + rest;
    let a = s.len() as int;
    lemma_find_from(s, sep, 0);
    lemma_find_from(u, sep, 0);
    assert(u[a] == ':' && u[a + 1] == '/' && u[a + 2] == '/');
    assert(occurs_at(u, sep, a));
    assert forall|j: int| 0 <= j < a implies !occurs_at(u, sep, j) by {
        if occurs_at(u, sep, j) {
            if j + 3 <= a {
                assert forall|k: int| 0 <= k < 3 implies s[j + k] == sep[k] by {
                    assert(u[j + k] == s[j + k]);
                }
                assert(occurs_at(s, sep, j));
            } else if j == a - 1 {
                assert(u[j + 1] == sep[1]);
            } else {
                assert(u[j + 2] == sep[2]);
            }
        }
    }
}

proof fn lemma_slash_after_host(p: Seq<char>, h: Seq<char>, r: Seq<char>)
    requires
        !h.contains('/'),
        r.len() == 0 || r[0] == '/',
    ensures
        find_from(p + h + r, seq!['/'], p.len() as int) == if r.len() == 0 {
            None
        } else {
            Some(p.len() + h.len() as int)
        },
{
    let u = p + h + r;
    let a = p.len() as int;
    let b = a + h.len();
    let slash: Seq<char> = seq!['/'];
    lemma_find_from(u, slash, a);
    assert forall|j: int| a <= j < b implies !occurs_at(u, slash, j) by {
        if occurs_at(u, slash, j) {
            assert(u[j + 0] == slash[0]);
            assert(u[j] == h[j - a]);
            assert(h.contains('/'));
        }
    }
    if r.len() > 0 {
        assert(u[b] == r[0]);
        assert(occurs_at(u, slash, b));
    }
}

/// Where the URL's host ends and what follows it decide the result: for a
/// URL made of a scheme `s` (without `://`), `://`, a host `h` (without
/// `/`) and a rest `r` that is empty or starts with `/`, the redirected URL
/// is the server address followed by `r`, whatever the scheme and host.
pub proof fn lemma_redirect_depends_on_path(s: Seq<char>, h: Seq<char>, r: Seq<char>, server: Seq<char>)
    requires
        !contains_seq(s, scheme_separator()),
        !h.contains('/'),
        r.len() == 0 || r[0] == '/',
        is_redirected_url(s + scheme_separator() + h + r),
    ensures
        redirected_url(s + scheme_separator() + h + r, server) == Some(server + r),
{
    let sep = scheme_separator();
    let u = s + sep + h + r;
    let a = s.len() as int;
    assert(u == s + (sep + h + r));
    lemma_scheme_first(s, sep + h + r);
    assert(u == (s + sep) + h + r);
    lemma_slash_after_host(s + sep, h, r);
    if r.len() == 0 {
        assert(url_path(u) =~= Seq::<char>::empty());
        assert(server + r =~= server);
    } else {
        assert(u.skip(a + 3 + h.len()) =~= r);
    }
}

} // verus!

verus! {

/// A URL is redirected exactly when it contains one of the six game-service
/// host names; every other URL is left alone.
pub proof fn lemma_redirects_exactly_the_game_hosts(url: Seq<char>, server: Seq<char>)
    ensures
        redirected_url(url, server) is Some <==> (contains_seq(url, "yostarplat.com"@)
            || contains_seq(url, "stellasora.global"@) || contains_seq(url, "stellasora.kr"@)
            || contains_seq(url, "stellasora.jp"@) || contains_seq(url, "stargazer-games.com"@)
            || contains_seq(url, "yostar.cn"@)),
{
    let d = redirect_domains();
    assert(d.len() == 6);
    assert(d[0] == "yostarplat.com"@);
    assert(d[1] == "stellasora.global"@);
    assert(d[2] == "stellasora.kr"@);
    assert(d[3] == "stellasora.jp"@);
    assert(d[4] == "stargazer-games.com"@);
    assert(d[5] == "yostar.cn"@);
    if is_redirected_url(url) {
        let k = choose|k: int| 0 <= k < d.len() && contains_seq(url, #[trigger] d[k]);
        assert(k == 0 || k == 1 || k == 2 || k == 3 || k == 4 || k == 5);
    }
}

} // verus!
