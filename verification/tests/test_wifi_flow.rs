use sugar_wifi_conf_rs::wifi::WifiStepKind;
use sugar_wifi_conf_rs::text::redact_text;
use sugar_wifi_conf_rs::wifi_flow::{
    nm_add_command, nm_delete_command, nm_node_style_commands, nm_status_command, nm_up_command, WifiAction,
    WifiEvent, WifiFlow, WpaReplyFlow,
};

fn ok(out: &str) -> WifiEvent {
    WifiEvent::Succeeded(out.as_bytes().to_vec())
}

fn fail(e: &str) -> WifiEvent {
    WifiEvent::Failed(e.to_string())
}

fn run(program: &str, args: &[&str], checked: bool) -> WifiAction {
    WifiAction::Run {
        program: program.to_string(),
        args: args.iter().map(|a| a.to_string()).collect(),
        checked,
    }
}

#[test]
fn network_manager_path() {
    let (mut flow, a) = WifiFlow::start("wlan0", "Home", "pw");
    assert_eq!(a, run("nmcli", &["--wait", "10", "dev", "status"], true));
    let a = flow.step(ok("wlan0 wifi connected\n"));
    assert_eq!(a, run("nmcli", &["--wait", "10", "connection", "delete", "id", "Home"], false));
    let a = flow.step(fail("no such connection"));
    assert_eq!(
        a,
        run(
            "nmcli",
            &[
                "--wait", "20", "connection", "add", "type", "wifi", "ifname", "wlan0", "con-name", "Home",
                "ssid", "Home", "wifi-sec.key-mgmt", "wpa-psk", "wifi-sec.psk", "pw",
            ],
            true
        )
    );
    let a = flow.step(ok(""));
    assert_eq!(a, run("nmcli", &["--wait", "20", "connection", "up", "Home"], true));
    let a = flow.step(ok("Connection successfully activated\n"));
    assert_eq!(a, WifiAction::Finish);
    assert!(flow.is_finished());
    assert_eq!(
        flow.messages(),
        vec![
            "Configuring WiFi for SSID: Home",
            "Detecting NetworkManager (nmcli)...",
            "wlan0 is managed by NetworkManager; using nmcli",
            "Adding WiFi connection with nmcli...",
            "Bringing WiFi connection up...",
            "Connection successfully activated",
            "WiFi configured via NetworkManager",
        ]
    );
    assert_eq!(flow.step(ok("")), WifiAction::Finish);
    assert_eq!(flow.messages().len(), 7);
}

#[test]
fn fallback_to_wpa_supplicant_and_manual_start() {
    let (mut flow, _) = WifiFlow::start("wlan0", "", "pw");
    let a = flow.step(fail("nmcli missing"));
    assert_eq!(a, WifiAction::UpdateConf { trim_prefix: true });
    assert_eq!(flow.step(ok("")), WifiAction::ReadInterfaces);
    assert_eq!(flow.step(fail("no file")), run("wpa_cli", &["-i", "wlan0", "reconfigure"], true));
    assert_eq!(flow.step(fail("x")), run("systemctl", &["restart", "wpa_supplicant@wlan0"], true));
    assert_eq!(flow.step(fail("unit failed")), WifiAction::Sleep { secs: 2 });
    let start = run("wpa_supplicant", &["-B", "-i", "wlan0", "-c/etc/wpa_supplicant/wpa_supplicant.conf"], true);
    assert_eq!(flow.step(ok("")), start);
    assert_eq!(flow.step(fail("e1")), WifiAction::Sleep { secs: 2 });
    assert_eq!(flow.step(ok("")), start);
    assert_eq!(flow.step(ok("Successfully initialized\n")), WifiAction::Finish);
    assert_eq!(
        flow.messages(),
        vec![
            "Configuring WiFi for SSID: <empty>",
            "Detecting NetworkManager (nmcli)...",
            "Failed to query nmcli: nmcli missing",
            "Assuming no NetworkManager; using wpa_supplicant",
            "Updating /etc/wpa_supplicant/wpa_supplicant.conf...",
            "wpa_supplicant.conf updated",
            "Warning: failed to check wlan0 config: no file",
            "Restarting wpa_supplicant...",
            "Failed to restart wpa_supplicant: wpa_supplicant restart failed: unit failed",
            "Falling back to manual wpa_supplicant start...",
            "Starting wpa_supplicant (attempt 1/10)...",
            "Starting wpa_supplicant (attempt 2/10)...",
            "Successfully initialized",
            "wpa_supplicant started",
        ]
    );
    assert_eq!(flow.steps()[2].kind, WifiStepKind::Warn);
}

#[test]
fn manual_start_gives_up_after_ten_attempts() {
    let (mut flow, _) = WifiFlow::start("wlan1", "S", "pw");
    flow.step(ok("wlan1 wifi unmanaged\n"));
    flow.step(ok(""));
    flow.step(ok("iface wlan1 inet manual\n"));
    flow.step(fail("a"));
    flow.step(fail("b"));
    let mut events = 0;
    loop {
        let a = flow.step(fail("still failing"));
        events += 1;
        if a == WifiAction::Finish {
            break;
        }
    }
    assert_eq!(events, 20);
    let m = flow.messages();
    assert_eq!(m[2], "wlan1 is not managed by NetworkManager; using wpa_supplicant");
    assert_eq!(m[m.len() - 2], "Starting wpa_supplicant (attempt 10/10)...");
    assert_eq!(m[m.len() - 1], "Failed to start wpa_supplicant: still failing");
    assert_eq!(flow.steps()[m.len() - 1].kind, WifiStepKind::Error);
}

#[test]
fn reboot_needed_and_update_failure() {
    let (mut flow, _) = WifiFlow::start("wlan0", "S", "pw");
    flow.step(fail("x"));
    flow.step(ok(""));
    let a = flow.step(ok("iface wlan0 inet dhcp\n  nohook wpa_supplicant\n"));
    assert_eq!(a, WifiAction::Finish);
    assert_eq!(flow.messages().last().unwrap(), "OK. Please reboot.");

    let (mut flow, _) = WifiFlow::start("wlan0", "S", "pw");
    flow.step(fail("x"));
    assert_eq!(flow.step(fail("permission denied")), WifiAction::Finish);
    assert_eq!(flow.messages().last().unwrap(), "Failed to update wpa_supplicant.conf: permission denied");
}

#[test]
fn network_manager_failure_falls_back() {
    let (mut flow, _) = WifiFlow::start("wlan0", "S", "pw");
    flow.step(ok("wlan0 wifi disconnected\n"));
    flow.step(ok(""));
    let a = flow.step(fail("add failed"));
    assert_eq!(a, WifiAction::UpdateConf { trim_prefix: true });
    let m = flow.messages();
    assert_eq!(m[m.len() - 3], "NetworkManager configuration failed: add failed");
    assert_eq!(m[m.len() - 2], "Falling back to wpa_supplicant...");
    assert_eq!(flow.step(ok("")), WifiAction::ReadInterfaces);
    assert_eq!(flow.step(ok("")), run("wpa_cli", &["-i", "wlan0", "reconfigure"], true));
    assert_eq!(flow.step(ok("")), WifiAction::Finish);
    assert_eq!(flow.messages().last().unwrap(), "wpa_supplicant restarted via wpa_cli reconfigure");
}

#[test]
fn single_reply_procedure() {
    let (mut f, a) = WpaReplyFlow::start("wlan0");
    assert_eq!(a, WifiAction::UpdateConf { trim_prefix: false });
    assert_eq!(f.step(ok("")), WifiAction::ReadInterfaces);
    assert_eq!(f.step(ok("")), run("wpa_cli", &["-i", "wlan0", "reconfigure"], true));
    assert_eq!(f.step(fail("x")), run("systemctl", &["restart", "wpa_supplicant@wlan0"], true));
    assert_eq!(f.step(ok("")), WifiAction::Finish);
    assert_eq!(f.reply().unwrap(), "10 wpa_supplicant restarted via systemctl restart");

    let (mut f, _) = WpaReplyFlow::start("wlan0");
    f.step(ok(""));
    f.step(ok(""));
    f.step(fail("x"));
    assert_eq!(f.step(fail("y")), run("killall", &["wpa_supplicant"], false));
    assert_eq!(f.step(ok("")), WifiAction::Sleep { secs: 2 });
    f.step(ok(""));
    assert_eq!(f.step(fail("z")), WifiAction::Sleep { secs: 2 });
    f.step(ok(""));
    assert_eq!(f.step(ok("started\n")), WifiAction::Finish);
    assert_eq!(f.reply().unwrap(), "9 started\n");
    assert!(f.is_finished());
}

#[test]
fn single_reply_errors() {
    let (mut f, _) = WpaReplyFlow::start("wlan0");
    assert!(f.reply().is_none());
    assert_eq!(f.step(fail("No such file or directory (os error 2)")), WifiAction::Finish);
    assert_eq!(f.reply().unwrap(), "No such file or directory (os error 2)");

    let (mut f, _) = WpaReplyFlow::start("wlan0");
    f.step(ok(""));
    f.step(ok("iface wlan0 inet dhcp\nnohook wpa_supplicant\n"));
    assert_eq!(f.reply().unwrap(), "OK. Please reboot.");

    let (mut f, _) = WpaReplyFlow::start("wlan0");
    f.step(ok(""));
    f.step(ok(""));
    f.step(fail("x"));
    f.step(fail("y"));
    f.step(ok(""));
    for _ in 0..10 {
        f.step(ok(""));
        f.step(fail("nope"));
    }
    assert_eq!(f.reply().unwrap(), "0 Command failed.");
}

#[test]
fn nmcli_argument_lists() {
    assert_eq!(nm_status_command(), vec!["--wait", "10", "dev", "status"]);
    assert_eq!(nm_delete_command("S", false), vec!["connection", "delete", "id", "S"]);
    assert_eq!(nm_up_command("S", true), vec!["--wait", "20", "connection", "up", "S"]);
    assert_eq!(nm_add_command("w", "S", "p", false)[0], "connection");
    let cmds = nm_node_style_commands("wlan0", "S", "p");
    assert_eq!(cmds.len(), 3);
    assert_eq!(cmds[0], ("nmcli".to_string(), nm_delete_command("S", false), false));
    assert_eq!(cmds[1].1.len(), 14);
    assert!(cmds[1].2 && cmds[2].2);
}

#[test]
fn failed_add_does_not_show_the_password() {
    let (mut flow, _) = WifiFlow::start("wlan0", "Home", "hunter2");
    flow.step(ok("wlan0 wifi disconnected\n"));
    flow.step(ok(""));
    flow.step(fail("`nmcli connection add ... wifi-sec.psk hunter2` exited with 10"));
    let m = flow.messages();
    assert_eq!(
        m[m.len() - 3],
        "NetworkManager configuration failed: `nmcli connection add ... wifi-sec.psk ***` exited with 10"
    );
    assert!(m.iter().all(|l| !l.contains("hunter2")));
}

#[test]
fn password_in_ssid_is_masked_too() {
    let (flow, _) = WifiFlow::start("wlan0", "secret-net", "secret");
    assert_eq!(flow.messages()[0], "Configuring WiFi for SSID: ***-net");
}

#[test]
fn asterisk_password_is_cut_out_when_masks_would_spell_it() {
    let (mut flow, _) = WifiFlow::start("wlan0", "S", "**");
    flow.step(fail("x ** y"));
    let m = flow.messages();
    assert_eq!(m[2], "Failed to query nmcli: x * y");
    assert!(m.iter().all(|l| !l.contains("**")));
}

#[test]
fn redact_text_masks_every_occurrence() {
    assert_eq!(redact_text("a pw b pw", "pw"), "a *** b ***");
    assert_eq!(redact_text("nothing here", "pw"), "nothing here");
    assert_eq!(redact_text("keep all", ""), "keep all");
    assert_eq!(redact_text("pwpw", "pw"), "******");
}
