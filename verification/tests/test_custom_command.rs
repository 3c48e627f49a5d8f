use sugar_wifi_conf_rs::custom_command::{
    command_for_suffix, exec_output_reply, index0_from_suffix, parse_custom_command_request,
    resolve_custom_command, CustomCommandError, CustomCommandItem, CustomCommandParseError,
    CustomCommandRequest,
};
use sugar_wifi_conf_rs::uuid;

fn cmd(label: &str, command: &str) -> CustomCommandItem {
    CustomCommandItem { label: label.to_string(), command: command.to_string(), uuid: None }
}

#[test]
fn custom_command_suffix_is_1_based_and_uppercase() {
    assert_eq!(uuid::suffix_for_index0(0), "0001");
    assert_eq!(uuid::suffix_for_index0(1), "0002");
    assert_eq!(uuid::suffix_for_index0(15), "0010");
}

#[test]
fn parse_key_and_suffix() {
    let req = parse_custom_command_request(b"pisugar%&%000A").unwrap();
    assert_eq!(req.key, "pisugar");
    assert_eq!(req.suffix, "000A");
}

#[test]
fn parse_accepts_long_uuid_and_dashed_uuid() {
    let req = parse_custom_command_request(b"k%&%FD2BCCCC0001").unwrap();
    assert_eq!(req.suffix, "0001");
    let req = parse_custom_command_request(b"k%&%fd2bcccc-0001").unwrap();
    assert_eq!(req.suffix, "0001");
}

#[test]
fn mapping_is_1_based_index_order() {
    let commands = vec![cmd("a", "echo a"), cmd("b", "echo b")];
    assert_eq!(command_for_suffix(&commands, "0001"), Some("echo a"));
    assert_eq!(command_for_suffix(&commands, "0002"), Some("echo b"));
    assert_eq!(command_for_suffix(&commands, "0000"), None);
    assert_eq!(command_for_suffix(&commands, "0003"), None);
}

#[test]
fn test_parse_basic_request() {
    let req = parse_custom_command_request(b"pisugar%&%0001").unwrap();
    assert_eq!(req.key, "pisugar");
    assert_eq!(req.suffix, "0001");
}

#[test]
fn test_parse_uppercase_suffix() {
    let req = parse_custom_command_request(b"key%&%000A").unwrap();
    assert_eq!(req.suffix, "000A");
}

#[test]
fn test_parse_lowercase_suffix() {
    let req = parse_custom_command_request(b"key%&%000a").unwrap();
    assert_eq!(req.suffix, "000A");
}

#[test]
fn test_parse_full_uuid() {
    let req = parse_custom_command_request(b"key%&%FD2BCCCC0001").unwrap();
    assert_eq!(req.suffix, "0001");
}

#[test]
fn test_parse_dashed_uuid() {
    let req = parse_custom_command_request(b"key%&%fd2bcccc-0001").unwrap();
    assert_eq!(req.suffix, "0001");
}

#[test]
fn test_parse_complex_uuid() {
    let req = parse_custom_command_request(b"key%&%550e8400-e29b-41d4-a716-446655440001").unwrap();
    assert_eq!(req.suffix, "0001");
}

#[test]
fn test_custom_command_test_parse_invalid_utf8() {
    let payload = vec![0x80, 0x81, 0xfe];
    let result = parse_custom_command_request(&payload);
    assert!(matches!(result, Err(CustomCommandParseError::InvalidUtf8)));
}

#[test]
fn test_custom_command_test_parse_missing_delimiter() {
    let result = parse_custom_command_request(b"onlykey");
    assert!(matches!(result, Err(CustomCommandParseError::InvalidSyntax)));
}

#[test]
fn test_parse_empty_key() {
    let result = parse_custom_command_request(b"%&%0001");
    assert!(matches!(result, Err(CustomCommandParseError::InvalidSyntax)));
}

#[test]
fn test_parse_empty_suffix() {
    let result = parse_custom_command_request(b"key%&%");
    assert!(matches!(result, Err(CustomCommandParseError::InvalidSyntax)));
}

#[test]
fn test_parse_invalid_suffix() {
    let result = parse_custom_command_request(b"key%&%GGGG");
    assert!(matches!(result, Err(CustomCommandParseError::InvalidSuffix)));
}

#[test]
fn test_parse_short_suffix() {
    let result = parse_custom_command_request(b"key%&%123");
    assert!(matches!(result, Err(CustomCommandParseError::InvalidSuffix)));
}

#[test]
fn test_index0_from_suffix() {
    assert_eq!(index0_from_suffix("0001"), Some(0));
    assert_eq!(index0_from_suffix("0002"), Some(1));
    assert_eq!(index0_from_suffix("000A"), Some(9));
    assert_eq!(index0_from_suffix("000a"), Some(9));
    assert_eq!(index0_from_suffix("FFFF"), Some(65534));
    assert_eq!(index0_from_suffix("0000"), None);
    assert_eq!(index0_from_suffix("GGGG"), None);
    assert_eq!(index0_from_suffix("123"), None);
}

#[test]
fn test_command_lookup_by_index() {
    let commands = vec![cmd("First", "echo first"), cmd("Second", "echo second")];
    assert_eq!(command_for_suffix(&commands, "0001"), Some("echo first"));
    assert_eq!(command_for_suffix(&commands, "0002"), Some("echo second"));
    assert_eq!(command_for_suffix(&commands, "0003"), None);
}

#[test]
fn test_command_lookup_by_uuid() {
    let commands = vec![
        CustomCommandItem {
            label: "First".to_string(),
            command: "echo first".to_string(),
            uuid: Some("ABCD".to_string()),
        },
        cmd("Second", "echo second"),
    ];
    assert_eq!(command_for_suffix(&commands, "ABCD"), Some("echo first"));
    assert_eq!(command_for_suffix(&commands, "0002"), Some("echo second"));
}

#[test]
fn test_uuid_takes_precedence_over_index() {
    let commands = vec![
        CustomCommandItem {
            label: "With UUID".to_string(),
            command: "echo uuid".to_string(),
            uuid: Some("0002".to_string()),
        },
        cmd("Second", "echo second"),
    ];
    assert_eq!(command_for_suffix(&commands, "0002"), Some("echo uuid"));
}

#[test]
fn test_request_equality() {
    let req1 = CustomCommandRequest { key: "key".to_string(), suffix: "0001".to_string() };
    let req2 = CustomCommandRequest { key: "key".to_string(), suffix: "0001".to_string() };
    let req3 = CustomCommandRequest { key: "key".to_string(), suffix: "0002".to_string() };
    assert_eq!(req1, req2);
    assert_ne!(req1, req3);
}

#[test]
fn test_large_command_list() {
    let mut commands = Vec::new();
    for i in 0..100 {
        commands.push(cmd(&format!("Command {}", i), &format!("echo {}", i)));
    }
    assert_eq!(command_for_suffix(&commands, "0064"), Some("echo 99"));
}

#[test]
fn test_boundary_suffix_values() {
    let commands = vec![cmd("Only", "echo only")];
    assert_eq!(command_for_suffix(&commands, "0001"), Some("echo only"));
    assert_eq!(command_for_suffix(&commands, "0000"), None);
    assert_eq!(command_for_suffix(&commands, "FFFF"), None);
}

// Further cases.

#[test]
fn suffix_is_trimmed_and_extra_fields_ignored() {
    let req = parse_custom_command_request(b"k%&% 00ff \t%&%extra").unwrap();
    assert_eq!(req.suffix, "00FF");
}

#[test]
fn plus_sign_suffix_parses_like_from_str_radix() {
    assert_eq!(index0_from_suffix("+00a"), Some(9));
    assert_eq!(index0_from_suffix("-001"), None);
}

#[test]
fn resolve_reports_each_error() {
    let commands = vec![cmd("a", "echo a")];
    assert_eq!(resolve_custom_command("k", &commands, b"k%&%0001"), Ok("echo a"));
    assert_eq!(resolve_custom_command("k", &commands, b"x%&%0001"), Err(CustomCommandError::InvalidKey));
    assert_eq!(resolve_custom_command("k", &commands, b"k%&%0002"), Err(CustomCommandError::CommandNotFound));
    assert_eq!(resolve_custom_command("k", &commands, b"k%&%zz"), Err(CustomCommandError::InvalidUuid));
    assert_eq!(resolve_custom_command("k", &commands, &[0xff]), Err(CustomCommandError::InvalidSyntax));
    assert_eq!(resolve_custom_command("k", &commands, b"k"), Err(CustomCommandError::InvalidSyntax));
}

#[test]
fn error_replies() {
    assert_eq!(CustomCommandError::InvalidKey.reply_bytes(), b"Invalid key.".to_vec());
    assert_eq!(CustomCommandError::ExecError("boom".to_string()).message(), "exec error: boom");
    assert_eq!(CustomCommandParseError::InvalidSuffix.message(), "invalid uuid suffix");
    assert_eq!(CustomCommandError::from(CustomCommandParseError::InvalidUtf8), CustomCommandError::InvalidSyntax);
}

#[test]
fn exec_reply_concatenates_outputs() {
    assert_eq!(exec_output_reply(Ok((b"out\n", b"err\n"))), b"out\nerr\n".to_vec());
    assert_eq!(exec_output_reply(Err("timeout")), b"exec error: timeout".to_vec());
}
