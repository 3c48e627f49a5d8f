use sugar_wifi_conf_rs::config::{CustomCommandItem, CustomConfigFile, CustomInfoItem};
use sugar_wifi_conf_rs::gatt::{
    characteristic_by_path, characteristic_by_uuid, custom_info_value_uuid, device_model_text,
    gatt_characteristics, Advertisement, ReadableCharacteristic, ADVERTISEMENT_PATH, APP_ROOT_PATH,
    SERVICE_PATH,
};
use sugar_wifi_conf_rs::uuid::{self, UuidError};

fn config(info: usize, commands: usize) -> CustomConfigFile {
    CustomConfigFile {
        info: (0..info)
            .map(|i| CustomInfoItem { label: format!("I{i}"), command: format!("echo {i}"), interval: None })
            .collect(),
        commands: (0..commands)
            .map(|i| CustomCommandItem { label: format!("C{i}"), command: format!("run {i}"), uuid: None })
            .collect(),
    }
}

#[test]
fn paths() {
    assert_eq!(APP_ROOT_PATH, "/com/sugar/wifi_conf");
    assert_eq!(ADVERTISEMENT_PATH, "/com/sugar/wifi_conf/advertisement0");
    assert_eq!(SERVICE_PATH, "/com/sugar/wifi_conf/service0");
}

#[test]
fn core_characteristics_in_order() {
    let defs = gatt_characteristics("pi", "Model X", None).unwrap();
    assert_eq!(defs.len(), 7);
    assert_eq!(defs[0].uuid, "FD2B4448-AA0F-4A15-A62F-EB0BE77A0001");
    assert_eq!(defs[0].path, "/com/sugar/wifi_conf/service0/char0");
    assert_eq!(defs[0].flags, vec!["read".to_string()]);
    assert_eq!(defs[0].read(), b"pi".to_vec());
    assert_eq!(defs[1].read(), b"Model X".to_vec());
    assert_eq!(defs[2].flags, vec!["notify".to_string()]);
    assert!(defs[2].read().is_empty());
    assert_eq!(defs[4].flags, vec!["write".to_string(), "write-without-response".to_string()]);
    assert!(defs[4].writable && defs[5].writable && !defs[6].writable);
    assert_eq!(defs[6].uuid, "FD2B4448-AA0F-4A15-A62F-EB0BE77A0006");
    assert_eq!(defs[6].path, "/com/sugar/wifi_conf/service0/char6");
}

#[test]
fn custom_characteristics_follow() {
    let cfg = config(2, 1);
    let defs = gatt_characteristics("pi", "m", Some(&cfg)).unwrap();
    assert_eq!(defs.len(), 11 + 2 * 2 + 1);
    assert_eq!(defs[7].uuid, "00000000-0000-0000-0000-FD2BCCAA0000");
    assert_eq!(defs[7].read_value, Some(b"2".to_vec()));
    assert_eq!(defs[8].uuid, "00000000-0000-0000-0000-FD2BCCCA0001");
    assert_eq!(defs[8].read_value, Some(b"I0".to_vec()));
    assert_eq!(defs[9].uuid, "00000000-0000-0000-0000-FD2BCCCB0001");
    assert_eq!(defs[9].flags, vec!["notify".to_string()]);
    assert_eq!(defs[11].uuid, "00000000-0000-0000-0000-FD2BCCCB0002");
    assert_eq!(defs[12].uuid, "00000000-0000-0000-0000-FD2BCCAC0000");
    assert_eq!(defs[12].read_value, Some(b"1".to_vec()));
    assert_eq!(defs[13].uuid, "00000000-0000-0000-0000-FD2BCCCC0001");
    assert_eq!(defs[14].uuid, "FD2B4448-AA0F-4A15-A62F-EB0BE77A0008");
    assert_eq!(defs[15].uuid, "FD2B4448-AA0F-4A15-A62F-EB0BE77A0009");
    assert_eq!(defs[15].path, "/com/sugar/wifi_conf/service0/char15");
}

#[test]
fn custom_suffixes_are_lower_case() {
    let cfg = config(11, 0);
    let defs = gatt_characteristics("pi", "m", Some(&cfg)).unwrap();
    assert_eq!(defs[8 + 2 * 10].uuid, "00000000-0000-0000-0000-FD2BCCCA000b");
    assert_eq!(custom_info_value_uuid(10), "FD2BCCCB000b");
    assert_eq!(custom_info_value_uuid(0), "FD2BCCCB0001");
}

#[test]
fn too_many_items_refused() {
    let cfg = config(65536, 0);
    let err = gatt_characteristics("pi", "m", Some(&cfg)).unwrap_err();
    assert_eq!(err.error, UuidError::UnsupportedLength);
    assert_eq!(err.raw, "FD2BCCCA10000");
    let ok = gatt_characteristics("pi", "m", Some(&config(0, 65535))).unwrap();
    assert_eq!(ok.len(), 11 + 65535);
}

#[test]
fn lookup_by_uuid_and_path() {
    let cfg = config(1, 1);
    let defs = gatt_characteristics("pi", "m", Some(&cfg)).unwrap();
    assert_eq!(characteristic_by_uuid(&defs, uuid::WIFI_NAME), Some(2));
    assert_eq!(characteristic_by_uuid(&defs, &custom_info_value_uuid(0)), Some(9));
    assert_eq!(characteristic_by_uuid(&defs, "FD2BCCCB0002"), None);
    assert_eq!(characteristic_by_uuid(&defs, "bad"), None);
    assert_eq!(characteristic_by_path(&defs, "/com/sugar/wifi_conf/service0/char3"), Some(3));
    assert_eq!(characteristic_by_path(&defs, "/nope"), None);
}

#[test]
fn advertisement() {
    let a = Advertisement::new("raspberrypi", "FD2B4448-AA0F-4A15-A62F-EB0BE77A0000");
    assert_eq!(a.type_(), "peripheral");
    assert_eq!(a.local_name(), "raspberrypi");
    assert_eq!(a.service_uuids(), vec!["FD2B4448-AA0F-4A15-A62F-EB0BE77A0000".to_string()]);
    a.release();
}

#[test]
fn device_model() {
    assert_eq!(device_model_text(Some("Raspberry Pi 4 Model B\0\n")), "Raspberry Pi 4 Model B");
    assert_eq!(device_model_text(Some("\r\nX\0")), "X");
    assert_eq!(device_model_text(Some(" X ")), " X ");
    assert_eq!(device_model_text(Some("\0\0")), "");
    assert_eq!(device_model_text(None), "unknown");
}
