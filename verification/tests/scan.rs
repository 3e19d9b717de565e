use static_malware_analysis::strings::{find_url, is_ipv4, is_path, scan, IocKind, StringScan};

fn values(s: &StringScan) -> Vec<(IocKind, &str)> {
    s.iocs.iter().map(|i| (i.kind, i.value.as_str())).collect()
}

#[test]
fn strings_of_the_least_length_are_counted() {
    let s = scan(b"abcd\x00abcde\x01abcdef", 5);
    assert_eq!((s.ascii_count, s.wide_count), (2, 0));
    assert_eq!(scan(b"", 5).ascii_count, 0);
    assert_eq!(scan(b"a\x00\x00b", 0).ascii_count, 2);
    // A tab is not printable here, a tilde is.
    assert_eq!(scan(b"ab\tcd", 3).ascii_count, 0);
    assert_eq!(scan(b"~~~", 3).ascii_count, 1);
}

#[test]
fn wide_strings_are_pairs_of_bytes() {
    let s = scan(b"h\0e\0l\0l\0o\0\0", 5);
    assert_eq!((s.ascii_count, s.wide_count), (0, 1));
    // An odd start is found as well.
    let s = scan(b"\xffh\0e\0l\0l\0o\0", 5);
    assert_eq!(s.wide_count, 1);
    let url: Vec<u8> = "http://x/".bytes().flat_map(|b| [b, 0]).collect();
    assert_eq!(values(&scan(&url, 5)), vec![(IocKind::Url, "http://x/")]);
}

#[test]
fn urls_end_where_they_should() {
    assert_eq!(find_url("see https://a.b/c?d=e and").as_deref(), Some("https://a.b/c?d=e"));
    assert_eq!(find_url("<a href=\"http://x\">").as_deref(), Some("http://x"));
    assert_eq!(find_url("(ftp://host/f)").as_deref(), Some("ftp://host/f"));
    // The scheme is looked for in order, not the place.
    assert_eq!(find_url("ftp://a https://b").as_deref(), Some("https://b"));
    assert_eq!(find_url("gopher://x"), None);
}

#[test]
fn paths_are_drives_or_servers() {
    assert!(is_path("C:\\x") && is_path("z:\\") && is_path("\\\\server\\share"));
    assert!(!is_path("C:/x") && !is_path("1:\\x") && !is_path("C:") && !is_path("\\x"));
}

#[test]
fn addresses_have_four_small_numbers() {
    assert!(is_ipv4("0.0.0.0") && is_ipv4("255.255.255.255") && is_ipv4("010.1.1.1"));
    assert!(is_ipv4("+1.2.3.4"), "a number may carry a plus sign");
    assert!(!is_ipv4("256.1.1.1") && !is_ipv4("1.2.3.") && !is_ipv4(".1.2.3") && !is_ipv4("1..2.3"));
    assert!(!is_ipv4("0001.2.3.4") && !is_ipv4("1.2.3.a") && !is_ipv4(""));
    let s = scan(b"from 10.0.0.1:80 to 10.0.0.2 v1.2.3.4.5", 5);
    assert_eq!(values(&s), vec![(IocKind::Ipv4, "10.0.0.1"), (IocKind::Ipv4, "10.0.0.2")]);
}

#[test]
fn one_string_may_hold_several_indicators() {
    let s = scan(b"HKCU\\a http://1.2.3.4/x", 5);
    assert_eq!(
        values(&s),
        vec![
            (IocKind::Url, "http://1.2.3.4/x"),
            (IocKind::RegistryKey, "HKCU\\a http://1.2.3.4/x"),
            (IocKind::Ipv4, "1.2.3.4"),
        ]
    );
    // A registry key is not a path as well.
    let s = scan(b"C:\\HKLM", 5);
    assert_eq!(values(&s), vec![(IocKind::RegistryKey, "C:\\HKLM")]);
    let s = scan(b"Software\\CurrentVersion\\Run", 5);
    assert_eq!(s.iocs[0].kind.name(), "Registry");
}

#[test]
fn no_indicator_is_listed_twice() {
    let s = scan(b"http://a\x00http://a\x00http://b\x00h\0t\0t\0p\0:\0/\0/\0a\0", 5);
    assert_eq!(values(&s), vec![(IocKind::Url, "http://a"), (IocKind::Url, "http://b")]);
}

#[test]
fn the_list_of_indicators_is_bounded() {
    let mut data = Vec::new();
    for i in 0..600 {
        data.extend_from_slice(format!("http://h/{i}\x00").as_bytes());
    }
    let s = scan(&data, 5);
    assert_eq!(s.ascii_count, 600);
    assert_eq!(s.iocs.len(), 500);
    assert_eq!(s.iocs[499].value, "http://h/499");
}
