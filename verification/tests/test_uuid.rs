use sugar_wifi_conf_rs::uuid::{
    bluez_uuid, suffix_for_index0, UuidError, CUSTOM_COMMAND_INPUT, CUSTOM_COMMAND_NOTIFY, DEVICE_MODEL,
    INPUT, INPUT_SEP, IP_ADDRESS, NOTIFY_MESSAGE, SERVICE_ID, SERVICE_NAME, WIFI_NAME,
};

fn is_hex(s: &str) -> bool {
    s.as_bytes().iter().all(|b| b.is_ascii_hexdigit())
}

#[test]
fn uuids_are_32_hex_chars() {
    let ids = [
        SERVICE_ID, SERVICE_NAME, DEVICE_MODEL, WIFI_NAME, IP_ADDRESS, INPUT, NOTIFY_MESSAGE,
        INPUT_SEP, CUSTOM_COMMAND_INPUT, CUSTOM_COMMAND_NOTIFY,
    ];
    for id in ids {
        assert_eq!(id.len(), 32);
        assert!(is_hex(id));
    }
}

#[test]
fn bluez_uuid_dashes_32_and_pads_12() {
    assert_eq!(bluez_uuid(SERVICE_ID).unwrap(), "FD2B4448-AA0F-4A15-A62F-EB0BE77A0000");
    assert_eq!(bluez_uuid("FD2BCCAA0000").unwrap(), "00000000-0000-0000-0000-FD2BCCAA0000");
    assert_eq!(bluez_uuid("FD2BCCAA000G"), Err(UuidError::InvalidHex12));
    assert_eq!(bluez_uuid("ZD2B4448AA0F4A15A62FEB0BE77A0000"), Err(UuidError::InvalidHex32));
    assert_eq!(bluez_uuid("abc"), Err(UuidError::UnsupportedLength));
    assert_eq!(UuidError::UnsupportedLength.message("abc"), "unsupported UUID length: abc");
}

#[test]
fn suffix_for_index0_pads_and_grows() {
    assert_eq!(suffix_for_index0(254), "00FF");
    assert_eq!(suffix_for_index0(65535), "10000");
}
