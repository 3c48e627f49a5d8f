use sugar_wifi_conf_rs::ble::ChangeDetector;
use sugar_wifi_conf_rs::config::CustomInfoItem;
use sugar_wifi_conf_rs::custom_info::{
    poll_output, poll_update, CustomInfoError, CustomInfoRegistry, CustomInfoUpdate,
    DEFAULT_CUSTOM_INFO_INTERVAL_SECS, DEFAULT_CUSTOM_INFO_MAX_BYTES, DEFAULT_CUSTOM_INFO_TIMEOUT_SECS,
};
use sugar_wifi_conf_rs::uuid;

fn info(label: &str, command: &str, interval: Option<u64>) -> CustomInfoItem {
    CustomInfoItem { label: label.to_string(), command: command.to_string(), interval }
}

#[test]
fn custom_info_suffix_is_1_based_and_uppercase() {
    assert_eq!(uuid::suffix_for_index0(0), "0001");
    assert_eq!(uuid::suffix_for_index0(15), "0010");
}

#[test]
fn registry_assigns_suffix_and_default_interval() {
    let reg = CustomInfoRegistry::from_config(&[
        info("a", "echo a", None),
        info("b", "echo b", Some(1)),
    ])
    .unwrap();

    assert_eq!(reg.items()[0].index, 1);
    assert_eq!(reg.items()[0].suffix.as_str(), "0001");
    assert_eq!(reg.items()[0].interval_secs, DEFAULT_CUSTOM_INFO_INTERVAL_SECS);

    assert_eq!(reg.items()[1].index, 2);
    assert_eq!(reg.items()[1].suffix.as_str(), "0002");
    assert_eq!(reg.items()[1].interval_secs, 1);

    assert_eq!(reg.get_by_suffix("0001").unwrap().label.as_str(), "a");
    assert_eq!(reg.get_by_suffix("0002").unwrap().label.as_str(), "b");
    assert!(reg.get_by_suffix("0003").is_none());
}

#[test]
fn registry_defaults_and_lookup_edges() {
    assert_eq!(DEFAULT_CUSTOM_INFO_INTERVAL_SECS, 10);
    assert_eq!(DEFAULT_CUSTOM_INFO_TIMEOUT_SECS, 10);
    assert_eq!(DEFAULT_CUSTOM_INFO_MAX_BYTES, 1024);
    let reg = CustomInfoRegistry::from_config(&[info("a", "echo a", None)]).unwrap();
    assert!(reg.get_by_suffix("0000").is_none());
    assert!(reg.get_by_suffix("001").is_none());
    assert!(reg.get_by_suffix("zzzz").is_none());
    assert_eq!(reg.get_by_suffix("+001").unwrap().command.as_str(), "echo a");
    let empty = CustomInfoRegistry::from_config(&[]).unwrap();
    assert!(empty.items().is_empty());
}

#[test]
fn registry_looks_up_every_assigned_suffix() {
    let items: Vec<CustomInfoItem> =
        (0..20).map(|i| info(&format!("L{i}"), &format!("echo {i}"), Some(i as u64))).collect();
    let reg = CustomInfoRegistry::from_config(&items).unwrap();
    for (i, spec) in reg.items().iter().enumerate() {
        let found = reg.get_by_suffix(&spec.suffix).unwrap();
        assert_eq!(found.label, format!("L{i}"));
        assert_eq!(found.index as usize, i + 1);
    }
}

#[test]
fn registry_refuses_too_many_items() {
    let items: Vec<CustomInfoItem> = (0..65536).map(|_| info("x", "true", None)).collect();
    assert_eq!(CustomInfoRegistry::from_config(&items).unwrap_err(), CustomInfoError::TooManyItems);
    assert_eq!(CustomInfoError::TooManyItems.message(), "custom info count exceeds u16::MAX");
    let ok: Vec<CustomInfoItem> = (0..65535).map(|_| info("x", "true", None)).collect();
    let reg = CustomInfoRegistry::from_config(&ok).unwrap();
    assert_eq!(reg.items()[65534].suffix, "FFFF");
}

#[test]
fn poll_output_joins_caps_and_trims_zeros() {
    assert_eq!(poll_output(Ok((b"out", b"err")), 1024), b"outerr".to_vec());
    assert_eq!(poll_output(Ok((b"abc\0\0", b"")), 1024), b"abc".to_vec());
    assert_eq!(poll_output(Ok((b"abcdef", b"")), 4), b"abcd".to_vec());
    assert_eq!(poll_output(Ok((b"ab\0\0cd", b"")), 4), b"ab".to_vec());
    assert_eq!(poll_output(Err("timeout"), 1024), b"cmd error: timeout".to_vec());
    assert_eq!(poll_output(Err("timeout"), 3), b"cmd".to_vec());
    assert_eq!(poll_output(Ok((b"\0\0", b"\0")), 10), Vec::<u8>::new());
}

#[test]
fn poll_updates_only_on_change() {
    let reg = CustomInfoRegistry::from_config(&[info("t", "date", None)]).unwrap();
    let spec = &reg.items()[0];
    let mut det = ChangeDetector::new();
    let first = poll_update(spec, &mut det, b"1".to_vec());
    assert_eq!(
        first,
        Some(CustomInfoUpdate { index: 1, suffix: "0001".to_string(), output: b"1".to_vec() })
    );
    assert_eq!(poll_update(spec, &mut det, b"1".to_vec()), None);
    assert_eq!(poll_update(spec, &mut det, b"2".to_vec()).unwrap().output, b"2".to_vec());
    assert_eq!(poll_update(spec, &mut det, b"1".to_vec()).unwrap().output, b"1".to_vec());
}
