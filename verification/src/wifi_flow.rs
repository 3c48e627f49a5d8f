//! The Wi-Fi configuration procedures as state machines: each step takes what the last
//! command or file operation gave and says what to do next, collecting the status lines
//! (or the single reply) sent back to the client. Running commands, touching files and
//! sleeping are left to the caller.
use vstd::prelude::*;
use vstd::string::StringExecFns;
use crate::wifi::{WifiStep, WifiStepKind, interface_ok_spec, interface_ok, nm_manages_spec, nm_manages_output};
use crate::exec::{lossy_trimmed, string_views, string_list};
use crate::text::{
    trim, utf8_lossy, utf8_lossy_text, decimal, decimal_chars, string_from_chars, redact, redact_text,
    contains_seq, lemma_redact_hides,
};

verus! {

/// Number of manual `wpa_supplicant` start attempts.
pub const SUPPLICANT_START_ATTEMPTS: u32 = 10;

/// Pause before each manual start attempt, in seconds.
pub const SUPPLICANT_START_PAUSE_SECS: u64 = 2;

/// What a configuration step asks its runner to do.
#[derive(Debug, Clone, PartialEq, Eq)]
pub enum WifiAction {
    /// Run `program` with `args` (no shell); when `checked`, an unsuccessful exit is a failure.
    Run { program: String, args: Vec<String>, checked: bool },
    /// Rewrite `wpa_supplicant.conf` for the network (`trim_prefix`: drop trailing
    /// whitespace of the text before the network blocks).
    UpdateConf { trim_prefix: bool },
    /// Read `/etc/network/interfaces`.
    ReadInterfaces,
    /// Sleep `secs` seconds.
    Sleep { secs: u64 },
    /// Nothing more to do.
    Finish,
}

/// What the runner reports back for the last action.
#[derive(Debug, Clone, PartialEq, Eq)]
pub enum WifiEvent {
    /// It succeeded: the command's stdout, or the file's bytes (empty otherwise).
    Succeeded(Vec<u8>),
    /// It failed, with the error's text.
    Failed(String),
}

/// An action as plain values.
pub enum ActionSpec {
    Run(Seq<char>, Seq<Seq<char>>, bool),
    UpdateConf(bool),
    ReadInterfaces,
    Sleep(u64),
    Finish,
}

/// An event as plain values.
pub enum EventSpec {
    Succeeded(Seq<u8>),
    Failed(Seq<char>),
}

impl View for WifiAction {
    type V = ActionSpec;

    open spec fn view(&self) -> ActionSpec {
        match self {
            WifiAction::Run { program, args, checked } => ActionSpec::Run(
                program@,
                string_views(args@),
                *checked,
            ),
            WifiAction::UpdateConf { trim_prefix } => ActionSpec::UpdateConf(*trim_prefix),
            WifiAction::ReadInterfaces => ActionSpec::ReadInterfaces,
            WifiAction::Sleep { secs } => ActionSpec::Sleep(*secs),
            WifiAction::Finish => ActionSpec::Finish,
        }
    }
}

impl View for WifiEvent {
    type V = EventSpec;

    open spec fn view(&self) -> EventSpec {
        match self {
            WifiEvent::Succeeded(b) => EventSpec::Succeeded(b@),
            WifiEvent::Failed(e) => EventSpec::Failed(e@),
        }
    }
}

/// The `nmcli` arguments that ask for the device states.
pub open spec fn nm_status_args() -> Seq<Seq<char>> {
    seq!["--wait"@, "10"@, "dev"@, "status"@]
}

/// The `nmcli` arguments that delete the connection named `ssid`.
pub open spec fn nm_delete_args(ssid: Seq<char>, wait: bool) -> Seq<Seq<char>> {
    let tail = seq!["connection"@, "delete"@, "id"@, ssid];
    if wait {
        seq!["--wait"@, "10"@] + tail
    } else {
        tail
    }
}

/// The `nmcli` arguments that add a WPA-PSK connection for `ssid` on `iface`.
pub open spec fn nm_add_args(iface: Seq<char>, ssid: Seq<char>, password: Seq<char>, wait: bool) -> Seq<
    Seq<char>,
> {
    let tail = seq![
        "connection"@,
        "add"@,
        "type"@,
        "wifi"@,
        "ifname"@,
        iface,
        "con-name"@,
        ssid,
        "ssid"@,
        ssid,
        "wifi-sec.key-mgmt"@,
        "wpa-psk"@,
        "wifi-sec.psk"@,
        password,
    ];
    if wait {
        seq!["--wait"@, "20"@] + tail
    } else {
        tail
    }
}

/// The `nmcli` arguments that bring the connection `ssid` up.
pub open spec fn nm_up_args(ssid: Seq<char>, wait: bool) -> Seq<Seq<char>> {
    let tail = seq!["connection"@, "up"@, ssid];
    if wait {
        seq!["--wait"@, "20"@] + tail
    } else {
        tail
    }
}

/// The `wpa_cli` arguments that make `wpa_supplicant` reread its configuration.
pub open spec fn wpa_cli_args(iface: Seq<char>) -> Seq<Seq<char>> {
    seq!["-i"@, iface, "reconfigure"@]
}

/// The `systemctl` arguments that restart the `wpa_supplicant@iface` unit.
pub open spec fn systemctl_args(iface: Seq<char>) -> Seq<Seq<char>> {
    seq!["restart"@, "wpa_supplicant@"@ + iface]
}

/// The `wpa_supplicant` arguments that start it in the background on `iface`.
pub open spec fn supplicant_args(iface: Seq<char>) -> Seq<Seq<char>> {
    seq!["-B"@, "-i"@, iface, "-c/etc/wpa_supplicant/wpa_supplicant.conf"@]
}

/// The `nmcli` arguments that ask for the device states.
pub fn nm_status_command() -> (r: Vec<String>)
    ensures
        string_views(r@) == nm_status_args(),
{
    let v = string_list(&["--wait", "10", "dev", "status"]);
    assert(string_views(v@) =~= nm_status_args());
    v
}

/// The `nmcli` arguments that delete the connection named `ssid` (`wait`: with
/// `--wait 10`).
pub fn nm_delete_command(ssid: &str, wait: bool) -> (r: Vec<String>)
    ensures
        string_views(r@) == nm_delete_args(ssid@, wait),
{
    let v = if wait {
        string_list(&["--wait", "10", "connection", "delete", "id", ssid])
    } else {
        string_list(&["connection", "delete", "id", ssid])
    };
    assert(string_views(v@) =~= nm_delete_args(ssid@, wait));
    v
}

/// The `nmcli` arguments that add the connection (`wait`: with `--wait 20`).
pub fn nm_add_command(iface: &str, ssid: &str, password: &str, wait: bool) -> (r: Vec<String>)
    ensures
        string_views(r@) == nm_add_args(iface@, ssid@, password@, wait),
{
    let v = if wait {
        string_list(
            &[
                "--wait",
                "20",
                "connection",
                "add",
                "type",
                "wifi",
                "ifname",
                iface,
                "con-name",
                ssid,
                "ssid",
                ssid,
                "wifi-sec.key-mgmt",
                "wpa-psk",
                "wifi-sec.psk",
                password,
            ],
        )
    } else {
        string_list(
            &[
                "connection",
                "add",
                "type",
                "wifi",
                "ifname",
                iface,
                "con-name",
                ssid,
                "ssid",
                ssid,
                "wifi-sec.key-mgmt",
                "wpa-psk",
                "wifi-sec.psk",
                password,
            ],
        )
    };
    assert(string_views(v@) =~= nm_add_args(iface@, ssid@, password@, wait));
    v
}

/// The `nmcli` arguments that bring the connection up (`wait`: with `--wait 20`).
pub fn nm_up_command(ssid: &str, wait: bool) -> (r: Vec<String>)
    ensures
        string_views(r@) == nm_up_args(ssid@, wait),
{
    let v = if wait {
        string_list(&["--wait", "20", "connection", "up", ssid])
    } else {
        string_list(&["connection", "up", ssid])
    };
    assert(string_views(v@) =~= nm_up_args(ssid@, wait));
    v
}

fn wpa_cli_command(iface: &str) -> (r: Vec<String>)
    ensures
        string_views(r@) == wpa_cli_args(iface@),
{
    let v = string_list(&["-i", iface, "reconfigure"]);
    assert(string_views(v@) =~= wpa_cli_args(iface@));
    v
}

fn systemctl_command(iface: &str) -> (r: Vec<String>)
    ensures
        string_views(r@) == systemctl_args(iface@),
{
    let unit = String::from_str("wpa_supplicant@").concat(iface);
    let v = string_list(&["restart", unit.as_str()]);
    assert(string_views(v@) =~= systemctl_args(iface@));
    v
}

fn supplicant_command(iface: &str) -> (r: Vec<String>)
    ensures
        string_views(r@) == supplicant_args(iface@),
{
    let v = string_list(&["-B", "-i", iface, "-c/etc/wpa_supplicant/wpa_supplicant.conf"]);
    assert(string_views(v@) =~= supplicant_args(iface@));
    v
}

/// The commands of the NetworkManager procedure without a reply (delete, add, bring up),
/// as (program, arguments, checked).
pub fn nm_node_style_commands(iface: &str, ssid: &str, password: &str) -> (r: Vec<(String, Vec<String>, bool)>)
    ensures
        r@.len() == 3,
        r@[0].0@ == "nmcli"@ && string_views(r@[0].1@) == nm_delete_args(ssid@, false) && !r@[0].2,
        r@[1].0@ == "nmcli"@ && string_views(r@[1].1@) == nm_add_args(iface@, ssid@, password@, false)
            && r@[1].2,
        r@[2].0@ == "nmcli"@ && string_views(r@[2].1@) == nm_up_args(ssid@, false) && r@[2].2,
{
    let mut out: Vec<(String, Vec<String>, bool)> = Vec::new();
    out.push((String::from_str("nmcli"), nm_delete_command(ssid, false), false));
    out.push((String::from_str("nmcli"), nm_add_command(iface, ssid, password, false), true));
    out.push((String::from_str("nmcli"), nm_up_command(ssid, false), true));
    out
}

/// Where a configuration stands: what it waits for.
#[derive(Debug, Clone, Copy, PartialEq, Eq, Structural)]
pub enum WifiPhase {
    QueryNetworkManager,
    NmDelete,
    NmAdd,
    NmUp,
    UpdateConf,
    ReadInterfaces,
    WpaCli,
    Systemctl,
    Pause,
    StartSupplicant,
    Finished,
}

/// A status line as plain values.
pub open spec fn step_view(s: WifiStep) -> (WifiStepKind, Seq<char>) {
    (s.kind, s.message@)
}

/// Status lines as plain values.
pub open spec fn step_views(v: Seq<WifiStep>) -> Seq<(WifiStepKind, Seq<char>)> {
    v.map_values(|s: WifiStep| step_view(s))
}

/// A configuration in progress, as plain values.
pub struct FlowSpec {
    pub iface: Seq<char>,
    pub ssid: Seq<char>,
    pub password: Seq<char>,
    pub phase: WifiPhase,
    pub attempts_left: u32,
    pub steps: Seq<(WifiStepKind, Seq<char>)>,
}

/// The attempts counter is meaningful while starting `wpa_supplicant` by hand.
pub open spec fn flow_wf(s: FlowSpec) -> bool {
    (s.phase == WifiPhase::Pause || s.phase == WifiPhase::StartSupplicant) ==> 1 <= s.attempts_left
        <= SUPPLICANT_START_ATTEMPTS
}

/// A status line of `kind` saying `m`, with `secret` (the password) redacted from it.
pub open spec fn line(kind: WifiStepKind, secret: Seq<char>, m: Seq<char>) -> (WifiStepKind, Seq<char>) {
    (kind, redact(m, secret))
}

/// An informational status line, `secret` redacted.
pub open spec fn info(secret: Seq<char>, m: Seq<char>) -> (WifiStepKind, Seq<char>) {
    line(WifiStepKind::Info, secret, m)
}

/// A warning status line, `secret` redacted.
pub open spec fn warn(secret: Seq<char>, m: Seq<char>) -> (WifiStepKind, Seq<char>) {
    line(WifiStepKind::Warn, secret, m)
}

/// An error status line, `secret` redacted.
pub open spec fn error(secret: Seq<char>, m: Seq<char>) -> (WifiStepKind, Seq<char>) {
    line(WifiStepKind::Error, secret, m)
}

/// How the SSID is shown: `<empty>` for the empty one.
pub open spec fn ssid_display(ssid: Seq<char>) -> Seq<char> {
    if ssid.len() == 0 {
        "<empty>"@
    } else {
        ssid
    }
}

/// The lines that open a configuration, and the action it starts with.
pub open spec fn flow_start(iface: Seq<char>, ssid: Seq<char>, password: Seq<char>) -> (FlowSpec, ActionSpec) {
    (
        FlowSpec {
            iface,
            ssid,
            password,
            phase: WifiPhase::QueryNetworkManager,
            attempts_left: 0,
            steps: seq![
                info(password, "Configuring WiFi for SSID: "@ + ssid_display(ssid)),
                info(password, "Detecting NetworkManager (nmcli)..."@),
            ],
        },
        ActionSpec::Run("nmcli"@, nm_status_args(), true),
    )
}

/// Move to the `wpa_supplicant` procedure.
pub open spec fn enter_wpa(s: FlowSpec) -> (FlowSpec, ActionSpec) {
    (
        FlowSpec {
            phase: WifiPhase::UpdateConf,
            steps: s.steps.push(info(s.password, "Updating /etc/wpa_supplicant/wpa_supplicant.conf..."@)),
            ..s
        },
        ActionSpec::UpdateConf(true),
    )
}

/// Move to restarting `wpa_supplicant`.
pub open spec fn enter_restart(s: FlowSpec) -> (FlowSpec, ActionSpec) {
    (
        FlowSpec {
            phase: WifiPhase::WpaCli,
            steps: s.steps.push(info(s.password, "Restarting wpa_supplicant..."@)),
            ..s
        },
        ActionSpec::Run("wpa_cli"@, wpa_cli_args(s.iface), true),
    )
}

/// Announce a manual start attempt with `attempts` attempts left, and pause first.
pub open spec fn enter_start(s: FlowSpec, attempts: u32) -> (FlowSpec, ActionSpec) {
    (
        FlowSpec {
            phase: WifiPhase::Pause,
            attempts_left: attempts,
            steps: s.steps.push(
                info(s.password, 
                    "Starting wpa_supplicant (attempt "@ + decimal((11 - attempts) as nat) + "/10)..."@,
                ),
            ),
            ..s
        },
        ActionSpec::Sleep(SUPPLICANT_START_PAUSE_SECS),
    )
}

/// Stop with the lines `steps`.
pub open spec fn finish(s: FlowSpec, steps: Seq<(WifiStepKind, Seq<char>)>) -> (FlowSpec, ActionSpec) {
    (FlowSpec { phase: WifiPhase::Finished, steps, ..s }, ActionSpec::Finish)
}

/// The NetworkManager procedure failed with `e`: fall back to `wpa_supplicant`.
pub open spec fn nm_fallback(s: FlowSpec, e: Seq<char>) -> (FlowSpec, ActionSpec) {
    enter_wpa(
        FlowSpec {
            steps: s.steps.push(warn(s.password, "NetworkManager configuration failed: "@ + e)).push(
                info(s.password, "Falling back to wpa_supplicant..."@),
            ),
            ..s
        },
    )
}

/// The command's trimmed stdout as a line when it is not empty, then `last`.
pub open spec fn details_then(
    steps: Seq<(WifiStepKind, Seq<char>)>,
    secret: Seq<char>,
    out: Seq<u8>,
    last: Seq<char>,
) -> Seq<(WifiStepKind, Seq<char>)> {
    let d = trim(utf8_lossy_text(out));
    if d.len() > 0 {
        steps.push(info(secret, d)).push(info(secret, last))
    } else {
        steps.push(info(secret, last))
    }
}

/// One step of the configuration: the state after event `e`, and what to do next.
pub open spec fn flow_next(s: FlowSpec, e: EventSpec) -> (FlowSpec, ActionSpec) {
    match s.phase {
        WifiPhase::QueryNetworkManager => match e {
            EventSpec::Succeeded(out) => if nm_manages_spec(trim(utf8_lossy_text(out)), s.iface) {
                (
                    FlowSpec {
                        phase: WifiPhase::NmDelete,
                        steps: s.steps.push(
                            info(s.password, s.iface + " is managed by NetworkManager; using nmcli"@),
                        ),
                        ..s
                    },
                    ActionSpec::Run("nmcli"@, nm_delete_args(s.ssid, true), false),
                )
            } else {
                enter_wpa(
                    FlowSpec {
                        steps: s.steps.push(
                            info(s.password, s.iface + " is not managed by NetworkManager; using wpa_supplicant"@),
                        ),
                        ..s
                    },
                )
            },
            EventSpec::Failed(err) => enter_wpa(
                FlowSpec {
                    steps: s.steps.push(warn(s.password, "Failed to query nmcli: "@ + err)).push(
                        info(s.password, "Assuming no NetworkManager; using wpa_supplicant"@),
                    ),
                    ..s
                },
            ),
        },
        WifiPhase::NmDelete => (
            FlowSpec {
                phase: WifiPhase::NmAdd,
                steps: s.steps.push(info(s.password, "Adding WiFi connection with nmcli..."@)),
                ..s
            },
            ActionSpec::Run("nmcli"@, nm_add_args(s.iface, s.ssid, s.password, true), true),
        ),
        WifiPhase::NmAdd => match e {
            EventSpec::Succeeded(_) => (
                FlowSpec {
                    phase: WifiPhase::NmUp,
                    steps: s.steps.push(info(s.password, "Bringing WiFi connection up..."@)),
                    ..s
                },
                ActionSpec::Run("nmcli"@, nm_up_args(s.ssid, true), true),
            ),
            EventSpec::Failed(err) => nm_fallback(s, err),
        },
        WifiPhase::NmUp => match e {
            EventSpec::Succeeded(out) => finish(
                s,
                details_then(s.steps, s.password, out, "WiFi configured via NetworkManager"@),
            ),
            EventSpec::Failed(err) => nm_fallback(s, err),
        },
        WifiPhase::UpdateConf => match e {
            EventSpec::Succeeded(_) => (
                FlowSpec {
                    phase: WifiPhase::ReadInterfaces,
                    steps: s.steps.push(info(s.password, "wpa_supplicant.conf updated"@)),
                    ..s
                },
                ActionSpec::ReadInterfaces,
            ),
            EventSpec::Failed(err) => finish(
                s,
                s.steps.push(error(s.password, "Failed to update wpa_supplicant.conf: "@ + err)),
            ),
        },
        WifiPhase::ReadInterfaces => match e {
            EventSpec::Succeeded(data) => if interface_ok_spec(utf8_lossy_text(data), s.iface) {
                enter_restart(s)
            } else {
                finish(s, s.steps.push(warn(s.password, "OK. Please reboot."@)))
            },
            EventSpec::Failed(err) => enter_restart(
                FlowSpec {
                    steps: s.steps.push(
                        warn(s.password, "Warning: failed to check "@ + s.iface + " config: "@ + err),
                    ),
                    ..s
                },
            ),
        },
        WifiPhase::WpaCli => match e {
            EventSpec::Succeeded(_) => finish(
                s,
                s.steps.push(info(s.password, "wpa_supplicant restarted via wpa_cli reconfigure"@)),
            ),
            EventSpec::Failed(_) => (
                FlowSpec { phase: WifiPhase::Systemctl, ..s },
                ActionSpec::Run("systemctl"@, systemctl_args(s.iface), true),
            ),
        },
        WifiPhase::Systemctl => match e {
            EventSpec::Succeeded(_) => finish(
                s,
                s.steps.push(info(s.password, "wpa_supplicant restarted via systemctl restart"@)),
            ),
            EventSpec::Failed(err) => enter_start(
                FlowSpec {
                    steps: s.steps.push(
                        warn(s.password, "Failed to restart wpa_supplicant: wpa_supplicant restart failed: "@ + err),
                    ).push(info(s.password, "Falling back to manual wpa_supplicant start..."@)),
                    ..s
                },
                SUPPLICANT_START_ATTEMPTS,
            ),
        },
        WifiPhase::Pause => (
            FlowSpec { phase: WifiPhase::StartSupplicant, ..s },
            ActionSpec::Run("wpa_supplicant"@, supplicant_args(s.iface), true),
        ),
        WifiPhase::StartSupplicant => match e {
            EventSpec::Succeeded(out) => finish(s, details_then(s.steps, s.password, out, "wpa_supplicant started"@)),
            EventSpec::Failed(err) => if s.attempts_left > 1 {
                enter_start(s, (s.attempts_left - 1) as u32)
            } else {
                finish(s, s.steps.push(error(s.password, "Failed to start wpa_supplicant: "@ + err)))
            },
        },
        WifiPhase::Finished => (s, ActionSpec::Finish),
    }
}

/// A Wi-Fi configuration in progress (NetworkManager first, else `wpa_supplicant`),
/// with the status lines collected so far.
pub struct WifiFlow {
    iface: String,
    ssid: String,
    password: String,
    phase: WifiPhase,
    attempts_left: u32,
    steps: Vec<WifiStep>,
}

impl View for WifiFlow {
    type V = FlowSpec;

    closed spec fn view(&self) -> FlowSpec {
        FlowSpec {
            iface: self.iface@,
            ssid: self.ssid@,
            password: self.password@,
            phase: self.phase,
            attempts_left: self.attempts_left,
            steps: step_views(self.steps@),
        }
    }
}

impl WifiFlow {
    fn push_step(&mut self, kind: WifiStepKind, message: String)
        requires
            flow_wf(old(self)@),
        ensures
            final(self)@ == (FlowSpec {
                steps: old(self)@.steps.push(line(kind, old(self)@.password, message@)),
                ..old(self)@
            }),
            flow_wf(final(self)@),
    {
        let ghost prev = self.steps@;
        let shown = redact_text(message.as_str(), self.password.as_str());
        self.steps.push(WifiStep { kind, message: shown });
        assert(step_views(self.steps@) =~= step_views(prev).push(line(kind, self.password@, message@)));
    }

    /// Begin configuring `ssid` on `iface`: announce it and ask NetworkManager for the
    /// device states.
    pub fn start(iface: &str, ssid: &str, password: &str) -> (r: (Self, WifiAction))
        ensures
            (r.0@, r.1@) == flow_start(iface@, ssid@, password@),
            flow_wf(r.0@),
    {
        let display = if ssid.unicode_len() == 0 {
            "<empty>"
        } else {
            ssid
        };
        let mut flow = WifiFlow {
            iface: String::from_str(iface),
            ssid: String::from_str(ssid),
            password: String::from_str(password),
            phase: WifiPhase::QueryNetworkManager,
            attempts_left: 0,
            steps: Vec::new(),
        };
        flow.push_step(WifiStepKind::Info, String::from_str("Configuring WiFi for SSID: ").concat(display));
        flow.push_step(WifiStepKind::Info, String::from_str("Detecting NetworkManager (nmcli)..."));
        let action = WifiAction::Run {
            program: String::from_str("nmcli"),
            args: nm_status_command(),
            checked: true,
        };
        assert(flow@.steps =~= flow_start(iface@, ssid@, password@).0.steps);
        (flow, action)
    }

    /// The status lines collected so far.
    pub fn steps(&self) -> (r: &[WifiStep])
        ensures
            step_views(r@) == self@.steps,
    {
        self.steps.as_slice()
    }

    /// The status lines as the texts sent to the client.
    pub fn messages(&self) -> (r: Vec<String>)
        ensures
            r@.len() == self@.steps.len(),
            forall|i: int| 0 <= i < r@.len() ==> (#[trigger] r@[i])@ == self@.steps[i].1,
    {
        let mut out: Vec<String> = Vec::new();
        let mut i: usize = 0;
        while i < self.steps.len()
            invariant
                i <= self.steps@.len(),
                out@.len() == i,
                forall|k: int| 0 <= k < i ==> (#[trigger] out@[k])@ == self.steps@[k].message@,
            decreases self.steps@.len() - i,
        {
            out.push(self.steps[i].text());
            i += 1;
        }
        out
    }

    /// Whether the configuration is over.
    pub fn is_finished(&self) -> (r: bool)
        ensures
            r == (self@.phase == WifiPhase::Finished),
    {
        self.phase == WifiPhase::Finished
    }

    fn enter_wpa(&mut self) -> (a: WifiAction)
        requires
            flow_wf(old(self)@),
        ensures
            (final(self)@, a@) == enter_wpa(old(self)@),
    {
        self.push_step(
            WifiStepKind::Info,
            String::from_str("Updating /etc/wpa_supplicant/wpa_supplicant.conf..."),
        );
        self.phase = WifiPhase::UpdateConf;
        WifiAction::UpdateConf { trim_prefix: true }
    }

    fn enter_restart(&mut self) -> (a: WifiAction)
        requires
            flow_wf(old(self)@),
        ensures
            (final(self)@, a@) == enter_restart(old(self)@),
    {
        self.push_step(WifiStepKind::Info, String::from_str("Restarting wpa_supplicant..."));
        self.phase = WifiPhase::WpaCli;
        WifiAction::Run {
            program: String::from_str("wpa_cli"),
            args: wpa_cli_command(self.iface.as_str()),
            checked: true,
        }
    }

    fn enter_start(&mut self, attempts: u32) -> (a: WifiAction)
        requires
            flow_wf(old(self)@),
            1 <= attempts <= SUPPLICANT_START_ATTEMPTS,
        ensures
            (final(self)@, a@) == enter_start(old(self)@, attempts),
    {
        let n = decimal_chars((11 - attempts) as u64);
        let msg = String::from_str("Starting wpa_supplicant (attempt ").concat(
            string_from_chars(n.as_slice()).as_str(),
        ).concat("/10)...");
        self.push_step(WifiStepKind::Info, msg);
        self.attempts_left = attempts;
        self.phase = WifiPhase::Pause;
        WifiAction::Sleep { secs: SUPPLICANT_START_PAUSE_SECS }
    }

    fn finish(&mut self) -> (a: WifiAction)
        requires
            flow_wf(old(self)@),
        ensures
            (final(self)@, a@) == finish(old(self)@, old(self)@.steps),
    {
        self.phase = WifiPhase::Finished;
        WifiAction::Finish
    }

    fn push_details(&mut self, out: &[u8], last: &str)
        requires
            flow_wf(old(self)@),
        ensures
            final(self)@ == (FlowSpec {
                steps: details_then(old(self)@.steps, old(self)@.password, out@, last@),
                ..old(self)@
            }),
    {
        let d = lossy_trimmed(out);
        if d.unicode_len() > 0 {
            self.push_step(WifiStepKind::Info, d);
        }
        self.push_step(WifiStepKind::Info, String::from_str(last));
    }

    /// Take the outcome of the last action and say what to do next.
    pub fn step(&mut self, event: WifiEvent) -> (a: WifiAction)
        requires
            flow_wf(old(self)@),
        ensures
            (final(self)@, a@) == flow_next(old(self)@, event@),
            flow_wf(final(self)@),
    {
        match self.phase {
            WifiPhase::QueryNetworkManager => match event {
                WifiEvent::Succeeded(out) => {
                    if nm_manages_output(out.as_slice(), self.iface.as_str()) {
                        let msg = self.iface.clone().concat(
                            " is managed by NetworkManager; using nmcli",
                        );
                        self.push_step(WifiStepKind::Info, msg);
                        self.phase = WifiPhase::NmDelete;
                        WifiAction::Run {
                            program: String::from_str("nmcli"),
                            args: nm_delete_command(self.ssid.as_str(), true),
                            checked: false,
                        }
                    } else {
                        let msg = self.iface.clone().concat(
                            " is not managed by NetworkManager; using wpa_supplicant",
                        );
                        self.push_step(WifiStepKind::Info, msg);
                        self.enter_wpa()
                    }
                },
                WifiEvent::Failed(err) => {
                    self.push_step(
                        WifiStepKind::Warn,
                        String::from_str("Failed to query nmcli: ").concat(err.as_str()),
                    );
                    self.push_step(
                        WifiStepKind::Info,
                        String::from_str("Assuming no NetworkManager; using wpa_supplicant"),
                    );
                    self.enter_wpa()
                },
            },
            WifiPhase::NmDelete => {
                self.push_step(
                    WifiStepKind::Info,
                    String::from_str("Adding WiFi connection with nmcli..."),
                );
                self.phase = WifiPhase::NmAdd;
                WifiAction::Run {
                    program: String::from_str("nmcli"),
                    args: nm_add_command(
                        self.iface.as_str(),
                        self.ssid.as_str(),
                        self.password.as_str(),
                        true,
                    ),
                    checked: true,
                }
            },
            WifiPhase::NmAdd => match event {
                WifiEvent::Succeeded(_) => {
                    self.push_step(
                        WifiStepKind::Info,
                        String::from_str("Bringing WiFi connection up..."),
                    );
                    self.phase = WifiPhase::NmUp;
                    WifiAction::Run {
                        program: String::from_str("nmcli"),
                        args: nm_up_command(self.ssid.as_str(), true),
                        checked: true,
                    }
                },
                WifiEvent::Failed(err) => self.nm_fallback(err.as_str()),
            },
            WifiPhase::NmUp => match event {
                WifiEvent::Succeeded(out) => {
                    self.push_details(out.as_slice(), "WiFi configured via NetworkManager");
                    self.finish()
                },
                WifiEvent::Failed(err) => self.nm_fallback(err.as_str()),
            },
            WifiPhase::UpdateConf => match event {
                WifiEvent::Succeeded(_) => {
                    self.push_step(WifiStepKind::Info, String::from_str("wpa_supplicant.conf updated"));
                    self.phase = WifiPhase::ReadInterfaces;
                    WifiAction::ReadInterfaces
                },
                WifiEvent::Failed(err) => {
                    self.push_step(
                        WifiStepKind::Error,
                        String::from_str("Failed to update wpa_supplicant.conf: ").concat(err.as_str()),
                    );
                    self.finish()
                },
            },
            WifiPhase::ReadInterfaces => match event {
                WifiEvent::Succeeded(data) => {
                    let text = utf8_lossy(data.as_slice());
                    if interface_ok(text.as_str(), self.iface.as_str()) {
                        self.enter_restart()
                    } else {
                        self.push_step(WifiStepKind::Warn, String::from_str("OK. Please reboot."));
                        self.finish()
                    }
                },
                WifiEvent::Failed(err) => {
                    let msg = String::from_str("Warning: failed to check ").concat(
                        self.iface.as_str(),
                    ).concat(" config: ").concat(err.as_str());
                    self.push_step(WifiStepKind::Warn, msg);
                    self.enter_restart()
                },
            },
            WifiPhase::WpaCli => match event {
                WifiEvent::Succeeded(_) => {
                    self.push_step(
                        WifiStepKind::Info,
                        String::from_str("wpa_supplicant restarted via wpa_cli reconfigure"),
                    );
                    self.finish()
                },
                WifiEvent::Failed(_) => {
                    self.phase = WifiPhase::Systemctl;
                    WifiAction::Run {
                        program: String::from_str("systemctl"),
                        args: systemctl_command(self.iface.as_str()),
                        checked: true,
                    }
                },
            },
            WifiPhase::Systemctl => match event {
                WifiEvent::Succeeded(_) => {
                    self.push_step(
                        WifiStepKind::Info,
                        String::from_str("wpa_supplicant restarted via systemctl restart"),
                    );
                    self.finish()
                },
                WifiEvent::Failed(err) => {
                    self.push_step(
                        WifiStepKind::Warn,
                        String::from_str(
                            "Failed to restart wpa_supplicant: wpa_supplicant restart failed: ",
                        ).concat(err.as_str()),
                    );
                    self.push_step(
                        WifiStepKind::Info,
                        String::from_str("Falling back to manual wpa_supplicant start..."),
                    );
                    self.enter_start(SUPPLICANT_START_ATTEMPTS)
                },
            },
            WifiPhase::Pause => {
                self.phase = WifiPhase::StartSupplicant;
                WifiAction::Run {
                    program: String::from_str("wpa_supplicant"),
                    args: supplicant_command(self.iface.as_str()),
                    checked: true,
                }
            },
            WifiPhase::StartSupplicant => match event {
                WifiEvent::Succeeded(out) => {
                    self.push_details(out.as_slice(), "wpa_supplicant started");
                    self.finish()
                },
                WifiEvent::Failed(err) => {
                    if self.attempts_left > 1 {
                        let left = self.attempts_left - 1;
                        self.enter_start(left)
                    } else {
                        self.push_step(
                            WifiStepKind::Error,
                            String::from_str("Failed to start wpa_supplicant: ").concat(err.as_str()),
                        );
                        self.finish()
                    }
                },
            },
            WifiPhase::Finished => WifiAction::Finish,
        }
    }

    fn nm_fallback(&mut self, err: &str) -> (a: WifiAction)
        requires
            flow_wf(old(self)@),
        ensures
            (final(self)@, a@) == nm_fallback(old(self)@, err@),
    {
        self.push_step(
            WifiStepKind::Warn,
            String::from_str("NetworkManager configuration failed: ").concat(err),
        );
        self.push_step(WifiStepKind::Info, String::from_str("Falling back to wpa_supplicant..."));
        self.enter_wpa()
    }
}


/// Where the single-reply `wpa_supplicant` procedure stands.
#[derive(Debug, Clone, Copy, PartialEq, Eq, Structural)]
pub enum WpaPhase {
    UpdateConf,
    ReadInterfaces,
    WpaCli,
    Systemctl,
    Kill,
    Pause,
    StartSupplicant,
    Finished,
}

/// The single-reply procedure, as plain values: the interface, the phase, the start
/// attempts left, and the reply once decided.
pub struct WpaSpec {
    pub iface: Seq<char>,
    pub phase: WpaPhase,
    pub tries_left: u32,
    pub reply: Option<Seq<char>>,
}

/// The attempts counter is meaningful while starting `wpa_supplicant` by hand.
pub open spec fn wpa_wf(s: WpaSpec) -> bool {
    (s.phase == WpaPhase::Pause || s.phase == WpaPhase::StartSupplicant) ==> 1 <= s.tries_left
        <= SUPPLICANT_START_ATTEMPTS
}

/// The procedure starts by rewriting `wpa_supplicant.conf` (prefix kept as is).
pub open spec fn wpa_start(iface: Seq<char>) -> (WpaSpec, ActionSpec) {
    (
        WpaSpec { iface, phase: WpaPhase::UpdateConf, tries_left: SUPPLICANT_START_ATTEMPTS, reply: None },
        ActionSpec::UpdateConf(false),
    )
}

/// Stop with `reply`.
pub open spec fn wpa_reply(s: WpaSpec, reply: Seq<char>) -> (WpaSpec, ActionSpec) {
    (WpaSpec { phase: WpaPhase::Finished, reply: Some(reply), ..s }, ActionSpec::Finish)
}

/// One step of the single-reply procedure.
pub open spec fn wpa_next(s: WpaSpec, e: EventSpec) -> (WpaSpec, ActionSpec) {
    match s.phase {
        WpaPhase::UpdateConf => match e {
            EventSpec::Succeeded(_) => (
                WpaSpec { phase: WpaPhase::ReadInterfaces, ..s },
                ActionSpec::ReadInterfaces,
            ),
            EventSpec::Failed(err) => wpa_reply(s, err),
        },
        WpaPhase::ReadInterfaces => match e {
            EventSpec::Succeeded(data) => if interface_ok_spec(utf8_lossy_text(data), s.iface) {
                (
                    WpaSpec { phase: WpaPhase::WpaCli, ..s },
                    ActionSpec::Run("wpa_cli"@, wpa_cli_args(s.iface), true),
                )
            } else {
                wpa_reply(s, "OK. Please reboot."@)
            },
            EventSpec::Failed(err) => wpa_reply(s, err),
        },
        WpaPhase::WpaCli => match e {
            EventSpec::Succeeded(_) => wpa_reply(s, "10 wpa_supplicant restarted via wpa_cli reconfigure"@),
            EventSpec::Failed(_) => (
                WpaSpec { phase: WpaPhase::Systemctl, ..s },
                ActionSpec::Run("systemctl"@, systemctl_args(s.iface), true),
            ),
        },
        WpaPhase::Systemctl => match e {
            EventSpec::Succeeded(_) => wpa_reply(s, "10 wpa_supplicant restarted via systemctl restart"@),
            EventSpec::Failed(_) => (
                WpaSpec { phase: WpaPhase::Kill, ..s },
                ActionSpec::Run("killall"@, seq!["wpa_supplicant"@], false),
            ),
        },
        WpaPhase::Kill => (
            WpaSpec { phase: WpaPhase::Pause, tries_left: SUPPLICANT_START_ATTEMPTS, ..s },
            ActionSpec::Sleep(SUPPLICANT_START_PAUSE_SECS),
        ),
        WpaPhase::Pause => (
            WpaSpec { phase: WpaPhase::StartSupplicant, ..s },
            ActionSpec::Run("wpa_supplicant"@, supplicant_args(s.iface), true),
        ),
        WpaPhase::StartSupplicant => match e {
            EventSpec::Succeeded(out) => wpa_reply(
                s,
                decimal(s.tries_left as nat) + " "@ + utf8_lossy_text(out),
            ),
            EventSpec::Failed(_) => if s.tries_left > 1 {
                (
                    WpaSpec { phase: WpaPhase::Pause, tries_left: (s.tries_left - 1) as u32, ..s },
                    ActionSpec::Sleep(SUPPLICANT_START_PAUSE_SECS),
                )
            } else {
                wpa_reply(s, "0 Command failed."@)
            },
        },
        WpaPhase::Finished => (s, ActionSpec::Finish),
    }
}

/// The `wpa_supplicant` procedure that answers the client with a single reply: rewrite
/// the configuration, check the interface, restart (`wpa_cli`, then `systemctl`), else
/// kill and start it by hand.
pub struct WpaReplyFlow {
    iface: String,
    phase: WpaPhase,
    tries_left: u32,
    reply: Option<String>,
}

impl View for WpaReplyFlow {
    type V = WpaSpec;

    closed spec fn view(&self) -> WpaSpec {
        WpaSpec {
            iface: self.iface@,
            phase: self.phase,
            tries_left: self.tries_left,
            reply: match self.reply {
                Some(r) => Some(r@),
                None => None,
            },
        }
    }
}

impl WpaReplyFlow {
    /// Begin on `iface`.
    pub fn start(iface: &str) -> (r: (Self, WifiAction))
        ensures
            (r.0@, r.1@) == wpa_start(iface@),
            wpa_wf(r.0@),
    {
        (
            WpaReplyFlow {
                iface: String::from_str(iface),
                phase: WpaPhase::UpdateConf,
                tries_left: SUPPLICANT_START_ATTEMPTS,
                reply: None,
            },
            WifiAction::UpdateConf { trim_prefix: false },
        )
    }

    /// The reply, once decided.
    pub fn reply(&self) -> (r: Option<String>)
        ensures
            match r {
                Some(t) => self@.reply == Some(t@),
                None => self@.reply is None,
            },
    {
        match &self.reply {
            Some(t) => Some(t.clone()),
            None => None,
        }
    }

    /// Whether the procedure is over.
    pub fn is_finished(&self) -> (r: bool)
        ensures
            r == (self@.phase == WpaPhase::Finished),
    {
        self.phase == WpaPhase::Finished
    }

    fn answer(&mut self, reply: String) -> (a: WifiAction)
        ensures
            (final(self)@, a@) == wpa_reply(old(self)@, reply@),
    {
        self.reply = Some(reply);
        self.phase = WpaPhase::Finished;
        WifiAction::Finish
    }

    /// Take the outcome of the last action and say what to do next.
    pub fn step(&mut self, event: WifiEvent) -> (a: WifiAction)
        requires
            wpa_wf(old(self)@),
        ensures
            (final(self)@, a@) == wpa_next(old(self)@, event@),
            wpa_wf(final(self)@),
    {
        match self.phase {
            WpaPhase::UpdateConf => match event {
                WifiEvent::Succeeded(_) => {
                    self.phase = WpaPhase::ReadInterfaces;
                    WifiAction::ReadInterfaces
                },
                WifiEvent::Failed(err) => self.answer(err),
            },
            WpaPhase::ReadInterfaces => match event {
                WifiEvent::Succeeded(data) => {
                    let text = utf8_lossy(data.as_slice());
                    if interface_ok(text.as_str(), self.iface.as_str()) {
                        self.phase = WpaPhase::WpaCli;
                        WifiAction::Run {
                            program: String::from_str("wpa_cli"),
                            args: wpa_cli_command(self.iface.as_str()),
                            checked: true,
                        }
                    } else {
                        self.answer(String::from_str("OK. Please reboot."))
                    }
                },
                WifiEvent::Failed(err) => self.answer(err),
            },
            WpaPhase::WpaCli => match event {
                WifiEvent::Succeeded(_) => self.answer(
                    String::from_str("10 wpa_supplicant restarted via wpa_cli reconfigure"),
                ),
                WifiEvent::Failed(_) => {
                    self.phase = WpaPhase::Systemctl;
                    WifiAction::Run {
                        program: String::from_str("systemctl"),
                        args: systemctl_command(self.iface.as_str()),
                        checked: true,
                    }
                },
            },
            WpaPhase::Systemctl => match event {
                WifiEvent::Succeeded(_) => self.answer(
                    String::from_str("10 wpa_supplicant restarted via systemctl restart"),
                ),
                WifiEvent::Failed(_) => {
                    self.phase = WpaPhase::Kill;
                    let args = string_list(&["wpa_supplicant"]);
                    assert(string_views(args@) =~= seq!["wpa_supplicant"@]);
                    WifiAction::Run { program: String::from_str("killall"), args, checked: false }
                },
            },
            WpaPhase::Kill => {
                self.tries_left = SUPPLICANT_START_ATTEMPTS;
                self.phase = WpaPhase::Pause;
                WifiAction::Sleep { secs: SUPPLICANT_START_PAUSE_SECS }
            },
            WpaPhase::Pause => {
                self.phase = WpaPhase::StartSupplicant;
                WifiAction::Run {
                    program: String::from_str("wpa_supplicant"),
                    args: supplicant_command(self.iface.as_str()),
                    checked: true,
                }
            },
            WpaPhase::StartSupplicant => match event {
                WifiEvent::Succeeded(out) => {
                    let n = decimal_chars(self.tries_left as u64);
                    let text = string_from_chars(n.as_slice()).concat(" ").concat(
                        utf8_lossy(out.as_slice()).as_str(),
                    );
                    self.answer(text)
                },
                WifiEvent::Failed(_) => {
                    if self.tries_left > 1 {
                        self.tries_left = self.tries_left - 1;
                        self.phase = WpaPhase::Pause;
                        WifiAction::Sleep { secs: SUPPLICANT_START_PAUSE_SECS }
                    } else {
                        self.answer(String::from_str("0 Command failed."))
                    }
                },
            },
            WpaPhase::Finished => WifiAction::Finish,
        }
    }
}


/// How far a configuration is from its end: every step before the end lowers it.
pub open spec fn flow_measure(s: FlowSpec) -> nat {
    match s.phase {
        WifiPhase::QueryNetworkManager => 100,
        WifiPhase::NmDelete => 99,
        WifiPhase::NmAdd => 98,
        WifiPhase::NmUp => 97,
        WifiPhase::UpdateConf => 60,
        WifiPhase::ReadInterfaces => 59,
        WifiPhase::WpaCli => 58,
        WifiPhase::Systemctl => 57,
        WifiPhase::Pause => (2 * s.attempts_left + 1) as nat,
        WifiPhase::StartSupplicant => (2 * s.attempts_left) as nat,
        WifiPhase::Finished => 0,
    }
}

/// A configuration always comes to an end: every event before the end moves it strictly
/// closer (so at most 100 events reach it), the end is announced by `Finish` and only
/// then, and once over it stays over.
pub proof fn law_wifi_flow_terminates(s: FlowSpec, e: EventSpec)
    requires
        flow_wf(s),
    ensures
        flow_wf(flow_next(s, e).0),
        flow_measure(flow_start(s.iface, s.ssid, s.password).0) == 100,
        s.phase != WifiPhase::Finished ==> flow_measure(flow_next(s, e).0) < flow_measure(s),
        (flow_next(s, e).1 is Finish) <==> flow_next(s, e).0.phase == WifiPhase::Finished,
        s.phase == WifiPhase::Finished ==> flow_next(s, e).0 == s,
{
}

/// Status lines already collected are never changed: each step only appends.
pub proof fn law_wifi_flow_appends(s: FlowSpec, e: EventSpec)
    ensures
        flow_next(s, e).0.steps.len() >= s.steps.len(),
        flow_next(s, e).0.steps.take(s.steps.len() as int) == s.steps,
        flow_next(s, e).0.iface == s.iface,
        flow_next(s, e).0.ssid == s.ssid,
        flow_next(s, e).0.password == s.password,
{
    let n = flow_next(s, e).0.steps;
    assert(n.take(s.steps.len() as int) =~= s.steps);
}

/// No status line holds `secret`.
pub open spec fn lines_hide(steps: Seq<(WifiStepKind, Seq<char>)>, secret: Seq<char>) -> bool {
    forall|i: int| 0 <= i < steps.len() ==> !contains_seq(#[trigger] steps[i].1, secret)
}

/// The lines that open a configuration never show its password, whatever the SSID and
/// the interface.
pub proof fn law_start_hides_password(iface: Seq<char>, ssid: Seq<char>, password: Seq<char>)
    requires
        password.len() > 0,
    ensures
        lines_hide(flow_start(iface, ssid, password).0.steps, password),
{
    lemma_redact_hides("Configuring WiFi for SSID: "@ + ssid_display(ssid), password);
    lemma_redact_hides("Detecting NetworkManager (nmcli)..."@, password);
}

/// No step ever shows the password: whatever the event (command output, error texts
/// holding a command line with the password in it), the lines a step adds hold no trace
/// of it, and the password stays the same, so a configuration never sends it back.
pub proof fn law_step_hides_password(s: FlowSpec, e: EventSpec)
    requires
        s.password.len() > 0,
        lines_hide(s.steps, s.password),
    ensures
        lines_hide(flow_next(s, e).0.steps, s.password),
        flow_next(s, e).0.password == s.password,
{
    assert forall|m: Seq<char>| !contains_seq(#[trigger] redact(m, s.password), s.password) by {
        lemma_redact_hides(m, s.password);
    }
}

/// A failed `nmcli connection add` or `connection up` is no success: the configuration
/// warns with the error, says it falls back, and moves on to rewriting
/// `wpa_supplicant.conf`; these three lines are all it adds.
pub proof fn law_nm_failure_falls_back(s: FlowSpec, err: Seq<char>)
    requires
        s.phase == WifiPhase::NmAdd || s.phase == WifiPhase::NmUp,
    ensures
        flow_next(s, EventSpec::Failed(err)).1 == ActionSpec::UpdateConf(true),
        flow_next(s, EventSpec::Failed(err)).0.phase == WifiPhase::UpdateConf,
        flow_next(s, EventSpec::Failed(err)).0.steps == s.steps + seq![
            (WifiStepKind::Warn, redact("NetworkManager configuration failed: "@ + err, s.password)),
            (WifiStepKind::Info, redact("Falling back to wpa_supplicant..."@, s.password)),
            (WifiStepKind::Info, redact("Updating /etc/wpa_supplicant/wpa_supplicant.conf..."@, s.password)),
        ],
{
    let n = flow_next(s, EventSpec::Failed(err)).0.steps;
    assert(n =~= s.steps + seq![
        (WifiStepKind::Warn, redact("NetworkManager configuration failed: "@ + err, s.password)),
        (WifiStepKind::Info, redact("Falling back to wpa_supplicant..."@, s.password)),
        (WifiStepKind::Info, redact("Updating /etc/wpa_supplicant/wpa_supplicant.conf..."@, s.password)),
    ]);
}

/// Bringing the connection up ends the configuration exactly when it succeeded, and only
/// then is `WiFi configured via NetworkManager` the last line.
pub proof fn law_nm_up_success_only(s: FlowSpec, e: EventSpec)
    requires
        s.phase == WifiPhase::NmUp,
    ensures
        (flow_next(s, e).1 == ActionSpec::Finish) <==> (e is Succeeded),
        e is Succeeded ==> flow_next(s, e).0.phase == WifiPhase::Finished && flow_next(s, e).0.steps.last() == (
        WifiStepKind::Info,
        redact("WiFi configured via NetworkManager"@, s.password),
        ),
        e is Failed ==> flow_next(s, e).0.phase == WifiPhase::UpdateConf,
{
}

/// A successful restart of `wpa_supplicant` (by `wpa_cli reconfigure`, else by
/// `systemctl restart`) ends the single-reply procedure at once, replying how it was
/// restarted; `killall` is run only after both failed.
pub proof fn law_wpa_restart_replies(s: WpaSpec, e: EventSpec)
    ensures
        s.phase == WpaPhase::WpaCli && e is Succeeded ==> wpa_next(s, e).1 == ActionSpec::Finish
            && wpa_next(s, e).0.phase == WpaPhase::Finished && wpa_next(s, e).0.reply == Some(
            "10 wpa_supplicant restarted via wpa_cli reconfigure"@,
        ),
        s.phase == WpaPhase::Systemctl && e is Succeeded ==> wpa_next(s, e).1 == ActionSpec::Finish
            && wpa_next(s, e).0.phase == WpaPhase::Finished && wpa_next(s, e).0.reply == Some(
            "10 wpa_supplicant restarted via systemctl restart"@,
        ),
        (wpa_next(s, e).1 matches ActionSpec::Run(p, _, _) && p == "killall"@) ==> s.phase
            == WpaPhase::Systemctl && e is Failed,
{
    reveal_strlit("killall");
    reveal_strlit("wpa_cli");
    reveal_strlit("systemctl");
    reveal_strlit("wpa_supplicant");
    assert("wpa_cli"@[0] != "killall"@[0]);
    assert("systemctl"@.len() != "killall"@.len());
    assert("wpa_supplicant"@.len() != "killall"@.len());
}

/// How far the single-reply procedure is from its end.
pub open spec fn wpa_measure(s: WpaSpec) -> nat {
    match s.phase {
        WpaPhase::UpdateConf => 50,
        WpaPhase::ReadInterfaces => 49,
        WpaPhase::WpaCli => 48,
        WpaPhase::Systemctl => 47,
        WpaPhase::Kill => 46,
        WpaPhase::Pause => (2 * s.tries_left + 1) as nat,
        WpaPhase::StartSupplicant => (2 * s.tries_left) as nat,
        WpaPhase::Finished => 0,
    }
}

/// The single-reply procedure always ends with a reply: every event before the end
/// moves it strictly closer, and a reply is given exactly when it ends.
pub proof fn law_wpa_reply_terminates(s: WpaSpec, e: EventSpec)
    requires
        wpa_wf(s),
        s.reply is Some <==> s.phase == WpaPhase::Finished,
    ensures
        wpa_wf(wpa_next(s, e).0),
        wpa_measure(wpa_start(s.iface).0) == 50,
        wpa_start(s.iface).0.reply is None,
        s.phase != WpaPhase::Finished ==> wpa_measure(wpa_next(s, e).0) < wpa_measure(s),
        wpa_next(s, e).0.reply is Some <==> wpa_next(s, e).0.phase == WpaPhase::Finished,
        (wpa_next(s, e).1 is Finish) <==> wpa_next(s, e).0.phase == WpaPhase::Finished,
        wpa_next(s, e).0.iface == s.iface,
{
}

} // verus!
