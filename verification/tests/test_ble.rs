use sugar_wifi_conf_rs::ble::{
    choose_adapter, command_result_reply, info_value_text, on_custom_command_message, on_input_sep_message,
    on_input_write, ChangeDetector, CommandOutcome, WifiRequestOutcome, COMMAND_STARTED_REPLY,
};
use sugar_wifi_conf_rs::config::CustomCommandItem;

fn cmd(label: &str, command: &str, uuid: Option<&str>) -> CustomCommandItem {
    CustomCommandItem {
        label: label.to_string(),
        command: command.to_string(),
        uuid: uuid.map(|u| u.to_string()),
    }
}

#[test]
fn input_write_replies() {
    assert_eq!(on_input_write(b"garbage", "pisugar"), WifiRequestOutcome::Reply("Wrong input syntax.".to_string()));
    assert_eq!(
        on_input_write(b"other%&%ssid%&%pw", "pisugar"),
        WifiRequestOutcome::Reply("Wrong input key.".to_string())
    );
    assert_eq!(
        on_input_write(b"pisugar%&%ssid%&%pw", "pisugar"),
        WifiRequestOutcome::Configure { ssid: "ssid".to_string(), password: "pw".to_string() }
    );
    assert_eq!(
        on_input_write(&[0xff, 0xfe], "pisugar"),
        WifiRequestOutcome::Reply("Wrong input syntax.".to_string())
    );
}

#[test]
fn input_sep_message_replies() {
    assert_eq!(on_input_sep_message(b"k%&%s", "k"), WifiRequestOutcome::Reply("Invalid syntax.".to_string()));
    assert_eq!(on_input_sep_message(b"x%&%s%&%p", "k"), WifiRequestOutcome::Reply("Invalid key.".to_string()));
    assert_eq!(
        on_input_sep_message(b"k%&%s%&%p", "k"),
        WifiRequestOutcome::Configure { ssid: "s".to_string(), password: "p".to_string() }
    );
}

#[test]
fn custom_command_message_replies() {
    let commands = vec![cmd("a", "echo a", None), cmd("b", "echo b", Some("FD2BCCCC00AB"))];
    assert_eq!(on_custom_command_message(b"nosep", "k", &commands), CommandOutcome::Reply("Invalid syntax.".to_string()));
    assert_eq!(on_custom_command_message(b"k%&%GGGG", "k", &commands), CommandOutcome::Reply("Invalid syntax.".to_string()));
    assert_eq!(on_custom_command_message(b"x%&%0001", "k", &commands), CommandOutcome::Reply("key error".to_string()));
    assert_eq!(
        on_custom_command_message(b"k%&%0009", "k", &commands),
        CommandOutcome::Reply("Command not found.".to_string())
    );
    assert_eq!(on_custom_command_message(b"k%&%0001", "k", &commands), CommandOutcome::Run("echo a".to_string()));
    assert_eq!(on_custom_command_message(b"k%&%00ab", "k", &commands), CommandOutcome::Run("echo b".to_string()));
    assert_eq!(COMMAND_STARTED_REPLY, "exec done.\n");
}

#[test]
fn command_results() {
    assert_eq!(command_result_reply(Ok(b"out\n")), b"out\n".to_vec());
    assert_eq!(command_result_reply(Err("boom")), b"exec error: boom".to_vec());
    assert_eq!(info_value_text(Some(b"42\n")), "42\n");
    assert_eq!(info_value_text(None), "cmd error");
}

#[test]
fn change_detector_sends_changes_only() {
    let mut d = ChangeDetector::new();
    let values: [&[u8]; 6] = [b"a", b"a", b"b", b"b", b"a", b""];
    let sent: Vec<bool> = values.iter().map(|v| d.offer(v)).collect();
    assert_eq!(sent, vec![true, false, true, false, true, true]);
    let mut e = ChangeDetector::new();
    assert!(e.offer(b""));
    assert!(!e.offer(b""));
}

#[test]
fn adapter_choice() {
    let paths = vec!["/org/bluez/hci1".to_string(), "/org/bluez/hci0".to_string()];
    assert_eq!(choose_adapter(&paths), Some(1));
    assert_eq!(choose_adapter(&["/org/bluez/hci2".to_string()]), Some(0));
    assert_eq!(choose_adapter(&[]), None);
    assert_eq!(choose_adapter(&["hci0".to_string(), "/x/hci0".to_string()]), Some(1));
}

#[test]
fn written_requests_come_back() {
    let payload = format!("{}%&%{}%&%{}", "k%", "50% off", "p&%x");
    assert_eq!(
        on_input_sep_message(payload.as_bytes(), "k%"),
        WifiRequestOutcome::Configure { ssid: "50% off".to_string(), password: "p&%x".to_string() }
    );
    let commands: Vec<CustomCommandItem> = (0..20).map(|i| cmd("c", &format!("run {i}"), None)).collect();
    for i in 0..20usize {
        let msg = format!("key%&%{}", sugar_wifi_conf_rs::uuid::suffix_for_index0(i));
        assert_eq!(
            on_custom_command_message(msg.as_bytes(), "key", &commands),
            CommandOutcome::Run(format!("run {i}"))
        );
    }
}
