use ssredirector::redirect::processIp;

const SERVER: &str = "http://127.0.0.1:21000";

#[test]
fn redirects_game_host_keeping_path() {
    let r = processIp("https://sdk.yostarplat.com/api/login?x=1", SERVER);
    assert_eq!(r.as_deref(), Some("http://127.0.0.1:21000/api/login?x=1"));
}

#[test]
fn every_listed_host_is_redirected() {
    for host in [
        "yostarplat.com",
        "stellasora.global",
        "stellasora.kr",
        "stellasora.jp",
        "stargazer-games.com",
        "yostar.cn",
    ] {
        let url = format!("https://a.{}/p/q", host);
        assert_eq!(processIp(&url, SERVER).as_deref(), Some("http://127.0.0.1:21000/p/q"));
    }
}

#[test]
fn other_hosts_are_left_alone() {
    assert_eq!(processIp("https://example.com/a", SERVER), None);
    assert_eq!(processIp("", SERVER), None);
    assert_eq!(processIp("https://STELLASORA.JP/a", SERVER), None);
}

#[test]
fn no_path_gives_server_alone() {
    assert_eq!(processIp("https://stellasora.jp", SERVER).as_deref(), Some(SERVER));
    assert_eq!(processIp("stellasora.kr/abc", SERVER).as_deref(), Some(SERVER));
}

#[test]
fn domain_anywhere_in_the_text_counts() {
    assert_eq!(
        processIp("https://cdn.example.com/redirect?to=yostar.cn", SERVER).as_deref(),
        Some("http://127.0.0.1:21000/redirect?to=yostar.cn")
    );
}

#[test]
fn path_starts_at_first_slash_after_scheme() {
    assert_eq!(
        processIp("http://x.yostar.cn:8080/a/b://c/d", "srv").as_deref(),
        Some("srv/a/b://c/d")
    );
}

#[test]
fn result_depends_only_on_path() {
    let a = processIp("https://sdk.yostarplat.com/v/1?q", SERVER);
    let b = processIp("ftp://x.stellasora.kr:81/v/1?q", SERVER);
    assert_eq!(a, b);
    assert_eq!(a.as_deref(), Some("http://127.0.0.1:21000/v/1?q"));
}
