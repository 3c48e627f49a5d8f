use sugar_wifi_conf_rs::exec::{
    append_capped, check_exit, custom_info_exec_options, lossy_trimmed, preview_lossy, wifi_exec_options,
    CommandSpec, ExecOptions, ExecOutput, DEFAULT_MAX_OUTPUT_BYTES, DEFAULT_TIMEOUT_SECS,
};

fn output(success: bool, stdout: &[u8], stderr: &[u8]) -> ExecOutput {
    ExecOutput {
        success,
        code: if success { Some(0) } else { Some(3) },
        stdout: stdout.to_vec(),
        stderr: stderr.to_vec(),
        stdout_truncated: false,
        stderr_truncated: false,
    }
}

#[test]
fn default_options() {
    let o = ExecOptions::default();
    assert_eq!(o.timeout_secs, 15);
    assert_eq!(o.max_output_bytes, 32 * 1024);
    assert_eq!(DEFAULT_TIMEOUT_SECS, 15);
    assert_eq!(DEFAULT_MAX_OUTPUT_BYTES, 32768);
    assert_eq!(wifi_exec_options(), ExecOptions { timeout_secs: 20, max_output_bytes: 16 * 1024 });
    assert_eq!(custom_info_exec_options(), ExecOptions { timeout_secs: 10, max_output_bytes: 1024 });
}

#[test]
fn lossy_output_is_trimmed() {
    assert_eq!(lossy_trimmed(b"  hi\n"), "hi");
    assert_eq!(lossy_trimmed(b"a\xffb"), "a\u{FFFD}b");
    let out = output(true, b" out \n", b"\terr\n");
    assert_eq!(out.stdout_lossy(), "out");
    assert_eq!(out.stderr_lossy(), "err");
}

#[test]
fn previews_are_cut_and_marked() {
    assert_eq!(preview_lossy(b"hello", 0), "");
    assert_eq!(preview_lossy(b" hello ", 10), "hello");
    assert_eq!(preview_lossy(b"hello world", 5), "hello...");
    assert_eq!(preview_lossy(b"hello", 5), "hello");
}

#[test]
fn exit_status_is_judged() {
    let ok = output(true, b"x", b"");
    assert_eq!(check_exit(ok).unwrap().stdout, b"x".to_vec());
    let long = vec![b'a'; 600];
    let failed = check_exit(output(false, &long, b" bad \n")).unwrap_err();
    assert_eq!(failed.code, Some(3));
    assert_eq!(failed.stdout_preview.len(), 515);
    assert!(failed.stdout_preview.ends_with("..."));
    assert_eq!(failed.stderr_preview, "bad");
}

#[test]
fn command_line_text() {
    let c = CommandSpec::new("nmcli", vec!["dev".to_string(), "status".to_string()]);
    assert_eq!(c.command_line(), "nmcli dev status");
    assert_eq!(c.program(), "nmcli");
    assert_eq!(c.args().len(), 2);
    assert_eq!(CommandSpec::new("true", vec![]).command_line(), "true");
}

#[test]
fn capture_keeps_the_first_bytes() {
    let mut buf = Vec::new();
    assert!(!append_capped(&mut buf, b"abc", 5));
    assert!(append_capped(&mut buf, b"def", 5));
    assert_eq!(buf, b"abcde".to_vec());
    assert!(append_capped(&mut buf, b"g", 5));
    assert_eq!(buf, b"abcde".to_vec());
    let mut exact = Vec::new();
    assert!(!append_capped(&mut exact, b"abcde", 5));
    assert!(!append_capped(&mut exact, b"", 5));
}

#[test]
fn capture_law_on_chunks() {
    let chunks: Vec<&[u8]> = vec![b"12", b"345", b"6", b"789"];
    let mut buf = Vec::new();
    let mut truncated = false;
    for c in &chunks {
        truncated |= append_capped(&mut buf, c, 7);
    }
    assert_eq!(buf, b"1234567".to_vec());
    assert!(truncated);
}
