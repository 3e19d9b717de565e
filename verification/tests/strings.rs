use static_malware_analysis::strings::{is_ipv4, scan, IocKind};

#[test]
fn extracts_ascii_string() {
    let data = b"\x00\x01Hello, World!\x00\x02";
    assert!(scan(data, 5).ascii_count >= 1);
}

#[test]
fn extracts_wide_string() {
    // "OKAY" in UTF-16LE
    let data = b"\x4f\x00\x4b\x00\x41\x00\x59\x00";
    assert!(scan(data, 4).wide_count >= 1);
}

#[test]
fn finds_url_ip_registry_path() {
    let mut data = Vec::new();
    data.extend_from_slice(b"\x00visit http://evil.example/gate.php now\x00");
    data.extend_from_slice(b"\x00connect 185.220.101.1 here\x00");
    data.extend_from_slice(b"\x00HKLM\\Software\\Microsoft\\Windows\\CurrentVersion\\Run\x00");
    data.extend_from_slice(b"\x00C:\\Windows\\Temp\\evil.exe\x00");
    let scan = scan(&data, 5);
    assert!(scan.iocs.iter().any(|i| i.kind == IocKind::Url && i.value.starts_with("http://evil")));
    assert!(scan.iocs.iter().any(|i| i.kind == IocKind::Ipv4 && i.value == "185.220.101.1"));
    assert!(scan.iocs.iter().any(|i| i.kind == IocKind::RegistryKey));
    assert!(scan.iocs.iter().any(|i| i.kind == IocKind::FilePath && i.value.contains("evil.exe")));
}

#[test]
fn validates_ipv4() {
    assert!(is_ipv4("1.2.3.4"));
    assert!(!is_ipv4("999.1.1.1")); // 999 > 255
    assert!(!is_ipv4("1.2.3")); // only 3 parts
    assert!(!is_ipv4("1.2.3.4.5")); // 5 parts
}
