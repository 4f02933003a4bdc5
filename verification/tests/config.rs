use ssredirector::config::{load_config, parse_dll_list, InitServerIp};

const SECTION: &str = "SSRedirector, Made by Cyt";

#[test]
fn empty_file_gets_defaults() {
    let mut conf = load_config("");
    let cfg = InitServerIp(&mut conf);
    assert_eq!(cfg.server_ip, "http://127.0.0.1:21000");
    assert!(cfg.extra_dlls.is_empty());
    assert!(cfg.need_write);
    assert_eq!(conf.get_from(Some(SECTION), "ServerIP"), Some("http://127.0.0.1:21000"));
    assert_eq!(conf.get_from(Some(SECTION), "ExtraDLLs"), Some("None"));
}

#[test]
fn configured_values_are_used() {
    let text = "[SSRedirector, Made by Cyt]\nServerIP=http://10.0.0.2:80\nExtraDLLs= a.dll, ,b.dll ,\n";
    let mut conf = load_config(text);
    let cfg = InitServerIp(&mut conf);
    assert_eq!(cfg.server_ip, "http://10.0.0.2:80");
    assert_eq!(cfg.extra_dlls, vec!["a.dll".to_string(), "b.dll".to_string()]);
    assert!(!cfg.need_write);
}

#[test]
fn none_in_any_case_means_no_libraries() {
    let text = "[SSRedirector, Made by Cyt]\nServerIP=x\nExtraDLLs=nOnE\n";
    let mut conf = load_config(text);
    let cfg = InitServerIp(&mut conf);
    assert!(cfg.extra_dlls.is_empty());
    assert!(!cfg.need_write);
    assert_eq!(conf.get_from(Some(SECTION), "ExtraDLLs"), Some("nOnE"));
}

#[test]
fn empty_server_ip_is_replaced() {
    let text = "[SSRedirector, Made by Cyt]\nServerIP=\nExtraDLLs=None\n";
    let mut conf = load_config(text);
    let cfg = InitServerIp(&mut conf);
    assert_eq!(cfg.server_ip, "http://127.0.0.1:21000");
    assert!(cfg.need_write);
}

#[test]
fn byte_order_mark_is_skipped() {
    let text = "\u{FEFF}[SSRedirector, Made by Cyt]\nServerIP=y\nExtraDLLs=c.dll\n";
    let mut conf = load_config(text);
    let cfg = InitServerIp(&mut conf);
    assert_eq!(cfg.server_ip, "y");
    assert_eq!(cfg.extra_dlls, vec!["c.dll".to_string()]);
}

#[test]
fn unparsable_text_counts_as_empty() {
    let mut conf = load_config("[unclosed section\nServerIP=q\n");
    let cfg = InitServerIp(&mut conf);
    assert_eq!(cfg.server_ip, "http://127.0.0.1:21000");
    assert!(cfg.need_write);
}

#[test]
fn second_start_reads_same_and_writes_nothing() {
    let mut conf = load_config("[other]\nk=v\n");
    let first = InitServerIp(&mut conf);
    assert!(first.need_write);
    let second = InitServerIp(&mut conf);
    assert!(!second.need_write);
    assert_eq!(first.server_ip, second.server_ip);
    assert_eq!(first.extra_dlls, second.extra_dlls);
}

#[test]
fn dll_list_splitting() {
    assert_eq!(parse_dll_list(""), Vec::<String>::new());
    assert_eq!(parse_dll_list(",,"), Vec::<String>::new());
    assert_eq!(
        parse_dll_list("\u{3000}x.dll\t,y z.dll"),
        vec!["x.dll".to_string(), "y z.dll".to_string()]
    );
}

fn section_names(conf: &ini::Ini) -> Vec<Option<String>> {
    conf.iter().map(|(s, _)| s.map(|n| n.to_string())).collect()
}

fn pairs(props: &ini::Properties) -> Vec<(String, String)> {
    props.iter().map(|(k, v)| (k.to_string(), v.to_string())).collect()
}

#[test]
fn missing_or_broken_file_gets_exactly_the_redirector_section() {
    for text in ["", "[broken\nServerIP=q\n"] {
        let mut conf = load_config(text);
        InitServerIp(&mut conf);
        assert_eq!(section_names(&conf), vec![None, Some(SECTION.to_string())]);
        assert!(conf.general_section().is_empty());
        assert_eq!(
            pairs(conf.section(Some(SECTION)).unwrap()),
            vec![
                ("ServerIP".to_string(), "http://127.0.0.1:21000".to_string()),
                ("ExtraDLLs".to_string(), "None".to_string()),
            ]
        );
    }
}

#[test]
fn filling_defaults_keeps_everything_else() {
    let text = "top=1\n[other]\na=b\n[SSRedirector, Made by Cyt]\nz=9\nServerIP=srv\nExtraDLLs=\nq=8\n[SSRedirector, Made by Cyt]\nExtraDLLs=later.dll\n";
    let mut conf = load_config(text);
    let cfg = InitServerIp(&mut conf);
    assert!(cfg.need_write);
    assert_eq!(cfg.server_ip, "srv");
    assert!(cfg.extra_dlls.is_empty());
    assert_eq!(
        section_names(&conf),
        vec![None, Some("other".to_string()), Some(SECTION.to_string()), Some(SECTION.to_string())]
    );
    assert_eq!(pairs(conf.general_section()), vec![("top".to_string(), "1".to_string())]);
    assert_eq!(pairs(conf.section(Some("other")).unwrap()), vec![("a".to_string(), "b".to_string())]);
    let all: Vec<_> = conf.section_all(Some(SECTION)).map(pairs).collect();
    assert_eq!(
        all[0],
        vec![
            ("z".to_string(), "9".to_string()),
            ("ServerIP".to_string(), "srv".to_string()),
            ("q".to_string(), "8".to_string()),
            ("ExtraDLLs".to_string(), "None".to_string()),
        ]
    );
    assert_eq!(all[1], vec![("ExtraDLLs".to_string(), "later.dll".to_string())]);
}
