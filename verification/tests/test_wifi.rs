use sugar_wifi_conf_rs::proto::CONCAT_TAG;
use sugar_wifi_conf_rs::wifi::{
    choose_wifi_interface, interface_ok, nm_manages, nm_manages_output, parse_int_value,
    parse_quoted_value, parse_wifi_request, parse_wpa_network_block_meta, psk_line, render_wpa_conf,
    split_wpa_network_blocks, temp_file_name, updated_wpa_conf, wpa_conf_max_priority, wpa_escape,
    ParseWifiRequestError, WifiRequest, WifiStep, WifiStepKind, DEFAULT_WIFI_INTERFACE,
};

fn chars(s: &str) -> Vec<char> {
    s.chars().collect()
}

#[test]
fn parse_valid_payload() {
    let req = parse_wifi_request(b"pisugar%&%MyWiFi%&%pass").unwrap();
    assert_eq!(
        req,
        WifiRequest {
            key: "pisugar".to_string(),
            ssid: "MyWiFi".to_string(),
            password: "pass".to_string(),
        }
    );
}

#[test]
fn parse_rejects_too_few_fields() {
    let err = parse_wifi_request(b"pisugar%&%onlyssid").unwrap_err();
    assert!(matches!(err, ParseWifiRequestError::InvalidSyntax));
}

#[test]
fn parse_rejects_invalid_utf8() {
    let payload = [0xffu8, 0xfeu8, 0xfdu8];
    let err = parse_wifi_request(&payload).unwrap_err();
    assert!(matches!(err, ParseWifiRequestError::InvalidUtf8));
}

#[test]
fn parse_accepts_extra_fields_for_compat() {
    let req = parse_wifi_request(b"k%&%s%&%p%&%ignored").unwrap();
    assert_eq!(req.key, "k");
    assert_eq!(req.ssid, "s");
    assert_eq!(req.password, "p");
}

#[test]
fn test_parse_valid_wifi_request() {
    let payload = b"pisugar%&%MyWiFi%&%password123";
    let req = parse_wifi_request(payload).unwrap();
    assert_eq!(req.key, "pisugar");
    assert_eq!(req.ssid, "MyWiFi");
    assert_eq!(req.password, "password123");
}

#[test]
fn test_parse_wifi_request_with_special_chars() {
    let payload = b"key%&%My WiFi 2.4G%&%pass with spaces!@#";
    let req = parse_wifi_request(payload).unwrap();
    assert_eq!(req.key, "key");
    assert_eq!(req.ssid, "My WiFi 2.4G");
    assert_eq!(req.password, "pass with spaces!@#");
}

#[test]
fn test_parse_wifi_request_empty_password() {
    let payload = b"key%&%OpenNetwork%&%";
    let req = parse_wifi_request(payload).unwrap();
    assert_eq!(req.ssid, "OpenNetwork");
    assert_eq!(req.password, "");
}

#[test]
fn test_wifi_test_parse_invalid_utf8() {
    let payload = vec![0x80, 0x81, 0x82];
    let result = parse_wifi_request(&payload);
    assert!(matches!(result, Err(ParseWifiRequestError::InvalidUtf8)));
}

#[test]
fn test_wifi_test_parse_missing_delimiter() {
    let payload = b"onlykeyandssid";
    let result = parse_wifi_request(payload);
    assert!(matches!(result, Err(ParseWifiRequestError::InvalidSyntax)));
}

#[test]
fn test_parse_single_delimiter() {
    let payload = b"key%&%ssid";
    let result = parse_wifi_request(payload);
    assert!(matches!(result, Err(ParseWifiRequestError::InvalidSyntax)));
}

#[test]
fn test_parse_extra_fields_ignored() {
    let payload = b"key%&%ssid%&%pass%&%extra%&%more";
    let req = parse_wifi_request(payload).unwrap();
    assert_eq!(req.key, "key");
    assert_eq!(req.ssid, "ssid");
    assert_eq!(req.password, "pass");
}

#[test]
fn test_wifi_request_equality() {
    let req1 = WifiRequest {
        key: "key".to_string(),
        ssid: "ssid".to_string(),
        password: "pass".to_string(),
    };
    let req2 = WifiRequest {
        key: "key".to_string(),
        ssid: "ssid".to_string(),
        password: "pass".to_string(),
    };
    let req3 = WifiRequest {
        key: "other".to_string(),
        ssid: "ssid".to_string(),
        password: "pass".to_string(),
    };
    assert_eq!(req1, req2);
    assert_ne!(req1, req3);
}

#[test]
fn test_concat_tag() {
    assert_eq!(CONCAT_TAG, "%&%");
}

#[test]
fn test_default_wifi_interface() {
    assert_eq!(DEFAULT_WIFI_INTERFACE, "wlan0");
}

#[test]
fn test_long_ssid_and_password() {
    let long_ssid = "a".repeat(32);
    let long_password = "b".repeat(63);
    let payload = format!("key%&%{}%&%{}", long_ssid, long_password);
    let req = parse_wifi_request(payload.as_bytes()).unwrap();
    assert_eq!(req.ssid, long_ssid);
    assert_eq!(req.password, long_password);
}

#[test]
fn test_unicode_ssid() {
    let payload = "key%&%我的WiFi%&%密码123";
    let req = parse_wifi_request(payload.as_bytes()).unwrap();
    assert_eq!(req.ssid, "我的WiFi");
    assert_eq!(req.password, "密码123");
}

#[test]
fn wifi_step_text_is_the_message() {
    let s = WifiStep::warn("careful".to_string());
    assert_eq!(s.kind, WifiStepKind::Warn);
    assert_eq!(s.text(), "careful");
    assert_eq!(WifiStep::info("a".to_string()).kind, WifiStepKind::Info);
    assert_eq!(WifiStep::error("b".to_string()).kind, WifiStepKind::Error);
}

#[test]
fn parse_error_messages() {
    assert_eq!(ParseWifiRequestError::InvalidUtf8.message(), "payload is not valid UTF-8");
    assert_eq!(
        ParseWifiRequestError::InvalidSyntax.message(),
        "invalid syntax: expected key%&%ssid%&%password"
    );
}

#[test]
fn wpa_escape_escapes_quotes_and_backslashes() {
    assert_eq!(wpa_escape(r#"a"b\c"#), r#"a\"b\\c"#);
    assert_eq!(wpa_escape("plain"), "plain");
}

#[test]
fn quoted_value_unescapes() {
    let v = parse_quoted_value(&chars("x ssid= \"a\\\"b\"\n"), &chars("ssid="));
    assert_eq!(v, Some(chars("a\"b")));
    assert_eq!(parse_quoted_value(&chars("ssid=abc"), &chars("ssid=")), None);
    assert_eq!(parse_quoted_value(&chars("ssid=\"open"), &chars("ssid=")), None);
    assert_eq!(parse_quoted_value(&chars("nothing"), &chars("ssid=")), None);
}

#[test]
fn int_value_reads_digits() {
    assert_eq!(parse_int_value(&chars("priority= 42\n"), &chars("priority=")), Some(42));
    assert_eq!(parse_int_value(&chars("priority=x"), &chars("priority=")), None);
    assert_eq!(parse_int_value(&chars("priority=99999999999"), &chars("priority=")), None);
    assert_eq!(parse_int_value(&chars("priority=2147483647"), &chars("priority=")), Some(i32::MAX));
}

#[test]
fn network_blocks_are_split_with_nesting_and_quotes() {
    let conf = "ctrl=1\nnetwork={\n\tssid=\"a}b\"\n\tpriority=3\n}\nnetwork={\n\tssid=\"c\"\n}\ntail";
    let (prefix, blocks) = split_wpa_network_blocks(conf);
    assert_eq!(prefix, "ctrl=1\n\n\ntail");
    assert_eq!(blocks.len(), 2);
    assert_eq!(blocks[0], "network={\n\tssid=\"a}b\"\n\tpriority=3\n}");
    assert_eq!(blocks[1], "network={\n\tssid=\"c\"\n}");
    let (p2, b2) = split_wpa_network_blocks("x network={ open");
    assert_eq!(p2, "x network={ open");
    assert!(b2.is_empty());
}

#[test]
fn block_meta_reads_ssid_and_priority() {
    let (ssid, prio) = parse_wpa_network_block_meta("network={\n\tssid=\"Home\"\n\tpriority=7\n}");
    assert_eq!(ssid.as_deref(), Some("Home"));
    assert_eq!(prio, Some(7));
    let (ssid, prio) = parse_wpa_network_block_meta("network={\n}");
    assert_eq!(ssid, None);
    assert_eq!(prio, None);
}

#[test]
fn max_priority_of_configuration() {
    let conf = "network={\nssid=\"a\"\npriority=3\n}\nnetwork={\nssid=\"b\"\npriority=9\n}";
    assert_eq!(wpa_conf_max_priority(conf), 9);
    assert_eq!(wpa_conf_max_priority("country=GB\n"), 0);
}

#[test]
fn render_replaces_same_ssid_and_bumps_priority() {
    let conf = "Country=GB\nnetwork={\n\tssid=\"Home\"\n\tpriority=3\n}\nnetwork={\n\tssid=\"Other\"\n\tpriority=5\n}\n";
    let out = render_wpa_conf(conf, "Home", "psk=\"pw\"", true);
    assert_eq!(
        out,
        "country=GB\n\tnetwork={\n\tssid=\"Other\"\n\tpriority=5\n}\n\tnetwork={\n\t\tssid=\"Home\"\n\t\tscan_ssid=1\n\t\tpsk=\"pw\"\n\t\tpriority=6\n\t}"
    );
    let node = render_wpa_conf("ctrl\n", "N", "psk=x", false);
    assert_eq!(node, "ctrl\n\n\tnetwork={\n\t\tssid=\"N\"\n\t\tscan_ssid=1\n\t\tpsk=x\n\t\tpriority=1\n\t}");
}

#[test]
fn psk_line_prefers_wpa_passphrase_output() {
    let out = "network={\n\tssid=\"x\"\n\t#psk=\"secret\"\n\tpsk=abcdef0123\n}\n";
    assert_eq!(psk_line(Some(out), "secret"), "psk=abcdef0123");
    assert_eq!(psk_line(Some("nothing"), "se\"cret"), "psk=\"se\\\"cret\"");
    assert_eq!(psk_line(None, "pw"), "psk=\"pw\"");
}

#[test]
fn updated_conf_uses_passphrase_output() {
    let out = updated_wpa_conf("", "S", "pw", Some(b"\tpsk=00ff\n"), true);
    assert_eq!(out, "\n\tnetwork={\n\t\tssid=\"S\"\n\t\tscan_ssid=1\n\t\tpsk=00ff\n\t\tpriority=1\n\t}");
    let fallback = updated_wpa_conf("", "S", "pw", None, true);
    assert!(fallback.contains("psk=\"pw\""));
}

#[test]
fn interfaces_file_check() {
    let ok = "auto lo\niface lo inet loopback\niface wlan0 inet manual\n    wpa-conf /etc/x\n";
    assert!(interface_ok(ok, "wlan0"));
    let bad = "iface wlan0 inet dhcp\n    nohook wpa_supplicant\n";
    assert!(!interface_ok(bad, "wlan0"));
    let other = "iface wlan0 inet dhcp\niface eth0 inet dhcp\n    nohook wpa_supplicant\n";
    assert!(interface_ok(other, "wlan0"));
    let commented = "iface wlan0 inet dhcp\n#nohook wpa_supplicant\n";
    assert!(interface_ok(commented, "wlan0"));
}

#[test]
fn network_manager_status() {
    let status = "DEVICE  TYPE  STATE\nwlan0   wifi  connected\neth0 ethernet unavailable\n";
    assert!(nm_manages(status, "wlan0"));
    assert!(!nm_manages(status, "eth0"));
    assert!(!nm_manages(status, "wlan1"));
    assert!(nm_manages_output(b"wlan0 wifi disconnected\n", "wlan0"));
    assert!(!nm_manages_output(b"wlan0 wifi unmanaged\n", "wlan0"));
}

#[test]
fn wifi_interface_detection_order() {
    let entries = vec![
        ("lo".to_string(), true),
        ("eth0".to_string(), false),
        ("wlan1".to_string(), true),
        ("wlan0".to_string(), true),
    ];
    assert_eq!(choose_wifi_interface(&entries), "wlan1");
    assert_eq!(choose_wifi_interface(&[("eth0".to_string(), false)]), "wlan0");
    assert_eq!(choose_wifi_interface(&[]), "wlan0");
}

#[test]
fn temp_file_name_format() {
    assert_eq!(temp_file_name("wpa_supplicant.conf", 4321), ".wpa_supplicant.conf.tmp.4321");
}

#[test]
fn written_block_reads_back_its_ssid() {
    let ssid = "we\"ird\\name";
    let out = render_wpa_conf("", ssid, "psk=1", true);
    let (_p, blocks) = split_wpa_network_blocks(&out);
    assert_eq!(blocks.len(), 1);
    let (s, prio) = parse_wpa_network_block_meta(&blocks[0]);
    assert_eq!(s.as_deref(), Some(ssid));
    assert_eq!(prio, Some(1));
}

#[test]
fn rewrite_keeps_single_block_per_ssid() {
    let first = render_wpa_conf("", "A", "psk=1", true);
    let second = render_wpa_conf(&first, "B", "psk=2", true);
    let third = render_wpa_conf(&second, "A", "psk=3", true);
    let (_p, blocks) = split_wpa_network_blocks(&third);
    let names: Vec<Option<String>> =
        blocks.iter().map(|b| parse_wpa_network_block_meta(b).0).collect();
    assert_eq!(names, vec![Some("B".to_string()), Some("A".to_string())]);
    assert_eq!(parse_wpa_network_block_meta(&blocks[1]).1, Some(3));
}

#[test]
fn bare_ssid_line_reads_back() {
    for s in ["plain", "q\"uote", "back\\slash\\", "", "\"\\\""] {
        let line = format!("ssid=\"{}\"", wpa_escape(s));
        assert_eq!(parse_quoted_value(&chars(&line), &chars("ssid=")), Some(chars(s)));
    }
}
