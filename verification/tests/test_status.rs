use sugar_wifi_conf_rs::exec::{status_exec_options, ExecOptions};
use sugar_wifi_conf_rs::status::{
    ip_address_text, select_ip_addresses, ssid_from_iw, ssid_from_nmcli, wifi_name_from_iw, AddrInfo,
    IfaceAddrs, NO_IP_ADDRESS, WIFI_NAME_UNAVAILABLE,
};

fn iface(name: &str, addrs: &[(&str, &str)]) -> IfaceAddrs {
    IfaceAddrs {
        ifname: Some(name.to_string()),
        addr_info: Some(
            addrs
                .iter()
                .map(|(f, l)| AddrInfo { family: Some(f.to_string()), local: Some(l.to_string()) })
                .collect(),
        ),
    }
}

#[test]
fn nmcli_active_ssid_is_found() {
    let out = b"no:Other\nyes:Home Net\nyes:Second\n";
    assert_eq!(ssid_from_nmcli(out).as_deref(), Some("Home Net"));
    assert_eq!(ssid_from_nmcli(b"yes:\nno:x\n"), None);
    assert_eq!(ssid_from_nmcli(b"yes:a:b\n").as_deref(), Some("a:b"));
    assert_eq!(ssid_from_nmcli(b""), None);
}

#[test]
fn iw_ssid_is_found() {
    let out = b"Connected to aa:bb\nSSID:  Cafe \nfreq: 2412\n";
    assert_eq!(ssid_from_iw(out).as_deref(), Some("Cafe"));
    assert_eq!(ssid_from_iw(b"\tSSID: Indented\n"), None);
    assert_eq!(wifi_name_from_iw(Some(b"SSID: X\n")), "X");
    assert_eq!(wifi_name_from_iw(Some(b"Not connected.\n")), WIFI_NAME_UNAVAILABLE);
    assert_eq!(wifi_name_from_iw(None), "Not available");
}

#[test]
fn ip_addresses_prefer_wifi_then_eth0_then_sorted() {
    let entries = vec![
        iface("zeth", &[("inet", "10.0.0.9")]),
        iface("lo", &[("inet", "127.0.0.1")]),
        iface("eth0", &[("inet", "192.168.1.2")]),
        iface("wlan0", &[("inet", "192.168.1.3"), ("inet6", "fe80::1"), ("inet", "169.254.1.1")]),
        iface("aeth", &[("inet", "10.0.0.1"), ("inet", "10.0.0.2")]),
    ];
    assert_eq!(
        select_ip_addresses(&entries, "wlan0"),
        "192.168.1.3, 192.168.1.2, 10.0.0.1, 10.0.0.2, 10.0.0.9"
    );
    assert_eq!(
        select_ip_addresses(&entries, "eth0"),
        "192.168.1.2, 10.0.0.1, 10.0.0.2, 192.168.1.3, 10.0.0.9"
    );
    assert_eq!(select_ip_addresses(&[iface("lo", &[("inet", "127.0.0.1")])], "wlan0"), NO_IP_ADDRESS);
    assert_eq!(select_ip_addresses(&[], "wlan0"), "--");
}

#[test]
fn ip_address_text_reads_ip_json() {
    let json = br#"[{"ifname":"lo","addr_info":[{"family":"inet","local":"127.0.0.1"}]},
        {"ifname":"wlan0","addr_info":[{"family":"inet","local":"192.168.4.7","prefixlen":24}]},
        {"ifname":"eth0","addr_info":[{"family":"inet","local":"10.1.1.1"}]}]"#;
    assert_eq!(ip_address_text(json, "wlan0"), "192.168.4.7, 10.1.1.1");
    assert_eq!(ip_address_text(b"not json", "wlan0"), "--");
    assert_eq!(ip_address_text(br#"{"ifname":"wlan0"}"#, "wlan0"), "--");
    assert_eq!(ip_address_text(br#"[{"ifname":5,"addr_info":[]}]"#, "wlan0"), "--");
}

#[test]
fn status_options() {
    let o: ExecOptions = status_exec_options();
    assert_eq!(o.timeout_secs, 3);
    assert_eq!(o.max_output_bytes, 32 * 1024);
}
