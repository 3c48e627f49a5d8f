//! What the BLE service decides on each client write and each polled value: which reply
//! a request gets, what configuration or command it starts, and which polled values are
//! worth a notification. Talking to BlueZ is left to the caller.
use vstd::prelude::*;
use vstd::string::StringExecFns;
use vstd::utf8::encode_utf8;
use crate::config::CustomCommandItem;
use crate::wifi::{parse_wifi_request, wifi_request_spec, request_text, law_wifi_request_round_trip, sep_chars};
use crate::uuid::upper_hex;
use crate::text::find_from;
use crate::custom_command::{
    parse_custom_command_request, parse_request_bytes, command_for_suffix, command_index, string_bytes,
    command_request_text, concat_tag_chars, law_command_request_resolves,
};
use crate::text::{str_chars, chars_eq, utf8_lossy, utf8_lossy_text};

verus! {

/// Reply to an INPUT write whose payload does not parse.
pub const INPUT_SYNTAX_REPLY: &'static str = "Wrong input syntax.";

/// Reply to an INPUT write with the wrong key.
pub const INPUT_KEY_REPLY: &'static str = "Wrong input key.";

/// Reply to an INPUT_SEP message that does not parse.
pub const SEP_SYNTAX_REPLY: &'static str = "Invalid syntax.";

/// Reply to an INPUT_SEP message with the wrong key.
pub const SEP_KEY_REPLY: &'static str = "Invalid key.";

/// Reply to a custom command message that does not parse.
pub const COMMAND_SYNTAX_REPLY: &'static str = "Invalid syntax.";

/// Reply to a custom command message with the wrong key.
pub const COMMAND_KEY_REPLY: &'static str = "key error";

/// Reply to a custom command message naming no configured command.
pub const COMMAND_NOT_FOUND_REPLY: &'static str = "Command not found.";

/// Reply sent before a custom command runs.
pub const COMMAND_STARTED_REPLY: &'static str = "exec done.\n";

/// Value of a custom info characteristic whose command failed.
pub const INFO_ERROR_VALUE: &'static str = "cmd error";

/// Seconds between two polls of the Wi-Fi name and the IP address.
pub const STATUS_POLL_SECS: u64 = 5;

/// Polling interval of a custom info characteristic without one, in seconds.
pub const INFO_POLL_DEFAULT_SECS: u64 = 10;

/// What a Wi-Fi request written by the client leads to.
#[derive(Debug, Clone, PartialEq, Eq)]
pub enum WifiRequestOutcome {
    /// Send this text on NOTIFY_MESSAGE and stop.
    Reply(String),
    /// Configure the network.
    Configure { ssid: String, password: String },
}

/// What a Wi-Fi request payload leads to, given the replies for a syntax error and for
/// a wrong key.
pub open spec fn wifi_request_outcome(
    payload: Seq<u8>,
    key: Seq<char>,
    syntax_reply: Seq<char>,
    key_reply: Seq<char>,
) -> Result<(Seq<char>, Seq<char>), Seq<char>> {
    match wifi_request_spec(payload) {
        Err(_) => Err(syntax_reply),
        Ok((k, s, p)) => if k != key {
            Err(key_reply)
        } else {
            Ok((s, p))
        },
    }
}

/// An outcome as plain values.
pub open spec fn outcome_view(o: WifiRequestOutcome) -> Result<(Seq<char>, Seq<char>), Seq<char>> {
    match o {
        WifiRequestOutcome::Reply(t) => Err(t@),
        WifiRequestOutcome::Configure { ssid, password } => Ok((ssid@, password@)),
    }
}

fn wifi_request_decision(payload: &[u8], key: &str, syntax_reply: &str, key_reply: &str) -> (r:
    WifiRequestOutcome)
    ensures
        outcome_view(r) == wifi_request_outcome(payload@, key@, syntax_reply@, key_reply@),
{
    let req = match parse_wifi_request(payload) {
        Ok(r) => r,
        Err(_) => return WifiRequestOutcome::Reply(String::from_str(syntax_reply)),
    };
    let k = str_chars(req.key.as_str());
    let expected = str_chars(key);
    if !chars_eq(k.as_slice(), expected.as_slice()) {
        return WifiRequestOutcome::Reply(String::from_str(key_reply));
    }
    WifiRequestOutcome::Configure { ssid: req.ssid, password: req.password }
}

/// A write to the (deprecated) INPUT characteristic: the whole write is one request
/// `key%&%ssid%&%password`; a bad one is answered `Wrong input syntax.` or
/// `Wrong input key.`.
pub fn on_input_write(value: &[u8], key: &str) -> (r: WifiRequestOutcome)
    ensures
        outcome_view(r) == wifi_request_outcome(value@, key@, INPUT_SYNTAX_REPLY@, INPUT_KEY_REPLY@),
{
    wifi_request_decision(value, key, INPUT_SYNTAX_REPLY, INPUT_KEY_REPLY)
}

/// A message reassembled from INPUT_SEP writes: a bad one is answered
/// `Invalid syntax.` or `Invalid key.`.
pub fn on_input_sep_message(payload: &[u8], key: &str) -> (r: WifiRequestOutcome)
    ensures
        outcome_view(r) == wifi_request_outcome(payload@, key@, SEP_SYNTAX_REPLY@, SEP_KEY_REPLY@),
{
    wifi_request_decision(payload, key, SEP_SYNTAX_REPLY, SEP_KEY_REPLY)
}

/// What a custom command message leads to.
#[derive(Debug, Clone, PartialEq, Eq)]
pub enum CommandOutcome {
    /// Answer with this text and stop.
    Reply(String),
    /// Answer `exec done.\n`, then run this shell command.
    Run(String),
}

/// What a custom command message leads to: the reply for a bad request, else the
/// command to run.
pub open spec fn command_outcome(payload: Seq<u8>, key: Seq<char>, commands: Seq<CustomCommandItem>) -> Result<
    Seq<char>,
    Seq<char>,
> {
    match parse_request_bytes(payload) {
        Err(_) => Err(COMMAND_SYNTAX_REPLY@),
        Ok((k, sfx)) => if k != key {
            Err(COMMAND_KEY_REPLY@)
        } else {
            match command_index(commands, sfx) {
                Some(i) => Ok(commands[i].command@),
                None => Err(COMMAND_NOT_FOUND_REPLY@),
            }
        },
    }
}

/// A command outcome as plain values.
pub open spec fn command_outcome_view(o: CommandOutcome) -> Result<Seq<char>, Seq<char>> {
    match o {
        CommandOutcome::Reply(t) => Err(t@),
        CommandOutcome::Run(c) => Ok(c@),
    }
}

/// A message reassembled from CUSTOM_COMMAND_INPUT writes: `key%&%suffix`.
pub fn on_custom_command_message(payload: &[u8], key: &str, commands: &[CustomCommandItem]) -> (r:
    CommandOutcome)
    ensures
        command_outcome_view(r) == command_outcome(payload@, key@, commands@),
{
    let req = match parse_custom_command_request(payload) {
        Ok(r) => r,
        Err(_) => return CommandOutcome::Reply(String::from_str(COMMAND_SYNTAX_REPLY)),
    };
    let k = str_chars(req.key.as_str());
    let expected = str_chars(key);
    if !chars_eq(k.as_slice(), expected.as_slice()) {
        return CommandOutcome::Reply(String::from_str(COMMAND_KEY_REPLY));
    }
    match command_for_suffix(commands, req.suffix.as_str()) {
        Some(c) => CommandOutcome::Run(String::from_str(c)),
        None => CommandOutcome::Reply(String::from_str(COMMAND_NOT_FOUND_REPLY)),
    }
}

/// The reply once a custom command ran: its stdout, or `exec error: ` and the error's
/// text when it could not run or exited unsuccessfully.
pub fn command_result_reply(outcome: Result<&[u8], &str>) -> (r: Vec<u8>)
    ensures
        r@ == match outcome {
            Ok(out) => out@,
            Err(e) => encode_utf8("exec error: "@ + e@),
        },
{
    match outcome {
        Ok(out) => vstd::slice::slice_to_vec(out),
        Err(e) => {
            let msg = String::from_str("exec error: ").concat(e);
            string_bytes(msg.as_str())
        },
    }
}

/// The value shown by a custom info characteristic for one poll: the command's stdout
/// decoded lossily, or `cmd error`.
pub fn info_value_text(stdout: Option<&[u8]>) -> (r: String)
    ensures
        r@ == match stdout {
            Some(out) => utf8_lossy_text(out@),
            None => INFO_ERROR_VALUE@,
        },
{
    match stdout {
        Some(out) => utf8_lossy(out),
        None => String::from_str(INFO_ERROR_VALUE),
    }
}

/// What offering a polled value does: whether it is sent, and the value remembered.
pub open spec fn offer_spec(last: Option<Seq<u8>>, v: Seq<u8>) -> (Option<Seq<u8>>, bool) {
    (Some(v), last != Some(v))
}

/// Remembers the last value notified, so that a polled value is only sent when it
/// differs from it (the first one always is).
#[derive(Debug)]
pub struct ChangeDetector {
    last: Option<Vec<u8>>,
}

impl ChangeDetector {
    /// The value last sent, if any.
    pub closed spec fn last_sent(&self) -> Option<Seq<u8>> {
        match self.last {
            Some(v) => Some(v@),
            None => None,
        }
    }

    /// Nothing sent yet.
    pub fn new() -> (r: Self)
        ensures
            r.last_sent() is None,
    {
        ChangeDetector { last: None }
    }

    /// Whether `value` is to be sent; if so it becomes the last value sent.
    pub fn offer(&mut self, value: &[u8]) -> (send: bool)
        ensures
            (final(self).last_sent(), send) == offer_spec(old(self).last_sent(), value@),
    {
        let same = match &self.last {
            Some(prev) => bytes_eq(prev.as_slice(), value),
            None => false,
        };
        if !same {
            self.last = Some(vstd::slice::slice_to_vec(value));
        }
        !same
    }
}

fn bytes_eq(a: &[u8], b: &[u8]) -> (r: bool)
    ensures
        r == (a@ == b@),
{
    if a.len() != b.len() {
        return false;
    }
    let mut i: usize = 0;
    while i < a.len()
        invariant
            a@.len() == b@.len(),
            i <= a@.len(),
            forall|k: int| 0 <= k < i ==> a@[k] == b@[k],
        decreases a@.len() - i,
    {
        if a[i] != b[i] {
            return false;
        }
        i += 1;
    }
    assert(a@ =~= b@);
    true
}

/// Which of the polled values are sent: each one that differs from the one before it,
/// and the first.
pub open spec fn sent_flags(last: Option<Seq<u8>>, values: Seq<Seq<u8>>) -> Seq<bool>
    decreases values.len(),
{
    if values.len() == 0 {
        Seq::empty()
    } else {
        let prev = sent_flags(last, values.drop_last());
        let before = if values.len() == 1 {
            last
        } else {
            Some(values[values.len() - 2])
        };
        prev.push(before != Some(values.last()))
    }
}

/// What offering the values one after the other gives: the last value remembered and
/// whether each was sent.
pub open spec fn offer_all(last: Option<Seq<u8>>, values: Seq<Seq<u8>>) -> (Option<Seq<u8>>, Seq<bool>)
    decreases values.len(),
{
    if values.len() == 0 {
        (last, Seq::empty())
    } else {
        let (l, flags) = offer_all(last, values.drop_last());
        let (l2, s) = offer_spec(l, values.last());
        (l2, flags.push(s))
    }
}

/// A polled characteristic notifies exactly the values that differ from the value polled
/// just before them (the first poll is always notified), and a repeated value is never
/// sent twice in a row.
pub proof fn law_change_detection(values: Seq<Seq<u8>>)
    ensures
        offer_all(None, values).1 == sent_flags(None, values),
        values.len() > 0 ==> offer_all(None, values).1[0],
        forall|i: int| 0 < i < values.len() && values[i] == values[i - 1] ==> !#[trigger] offer_all(None, values).1[i],
    decreases values.len(),
{
    lemma_offer_all(None, values);
    if values.len() > 0 {
        assert forall|i: int| 0 < i < values.len() && values[i] == values[i - 1] implies !#[trigger] offer_all(
            None,
            values,
        ).1[i] by {
            lemma_sent_flags_at(None, values, i);
        }
        lemma_sent_flags_at(None, values, 0);
    }
}

proof fn lemma_offer_all(last: Option<Seq<u8>>, values: Seq<Seq<u8>>)
    ensures
        offer_all(last, values).1 == sent_flags(last, values),
        offer_all(last, values).1.len() == values.len(),
        values.len() > 0 ==> offer_all(last, values).0 == Some(values.last()),
        values.len() == 0 ==> offer_all(last, values).0 == last,
    decreases values.len(),
{
    if values.len() > 0 {
        lemma_offer_all(last, values.drop_last());
        if values.len() >= 2 {
            assert(values.drop_last().last() == values[values.len() - 2]);
        }
    }
}

proof fn lemma_sent_flags_at(last: Option<Seq<u8>>, values: Seq<Seq<u8>>, i: int)
    requires
        0 <= i < values.len(),
    ensures
        sent_flags(last, values).len() == values.len(),
        sent_flags(last, values)[i] == ((if i == 0 {
            last
        } else {
            Some(values[i - 1])
        }) != Some(values[i])),
    decreases values.len(),
{
    lemma_offer_all(last, values);
    if i < values.len() - 1 {
        lemma_sent_flags_at(last, values.drop_last(), i);
    }
}

/// Pick the BlueZ adapter among the adapter object paths, in the order listed: the
/// first ending in `/hci0`, else the first one.
pub open spec fn adapter_choice(paths: Seq<Seq<char>>) -> Option<int> {
    if exists|i: int| 0 <= i < paths.len() && paths[i].len() >= 5 && #[trigger] paths[i].skip(
        paths[i].len() - 5,
    ) == "/hci0"@ {
        Some(
            choose|i: int|
                0 <= i < paths.len() && paths[i].len() >= 5 && #[trigger] paths[i].skip(paths[i].len() - 5)
                    == "/hci0"@ && forall|j: int|
                    0 <= j < i ==> !(paths[j].len() >= 5 && #[trigger] paths[j].skip(paths[j].len() - 5)
                        == "/hci0"@),
        )
    } else if paths.len() > 0 {
        Some(0)
    } else {
        None
    }
}

fn ends_with_hci0(p: &[char]) -> (r: bool)
    ensures
        r == (p@.len() >= 5 && p@.skip(p@.len() - 5) == "/hci0"@),
{
    proof {
        reveal_strlit("/hci0");
    }
    if p.len() < 5 {
        return false;
    }
    let n = p.len();
    let r = p[n - 5] == '/' && p[n - 4] == 'h' && p[n - 3] == 'c' && p[n - 2] == 'i' && p[n - 1] == '0';
    proof {
        if r {
            assert(p@.skip(p@.len() - 5) =~= "/hci0"@);
        } else if p@.skip(p@.len() - 5) == "/hci0"@ {
            assert(p@.skip(p@.len() - 5)[0] == p@[n - 5]);
            assert(p@.skip(p@.len() - 5)[1] == p@[n - 4]);
            assert(p@.skip(p@.len() - 5)[2] == p@[n - 3]);
            assert(p@.skip(p@.len() - 5)[3] == p@[n - 2]);
            assert(p@.skip(p@.len() - 5)[4] == p@[n - 1]);
        }
    }
    r
}

/// The index of the adapter to use among the BlueZ adapter object paths (those with
/// `org.bluez.Adapter1`), in the order listed: the first ending in `/hci0`, else the
/// first; `None` when there is none.
pub fn choose_adapter(paths: &[String]) -> (r: Option<usize>)
    ensures
        match r {
            Some(i) => adapter_choice(paths@.map_values(|s: String| s@)) == Some(i as int),
            None => adapter_choice(paths@.map_values(|s: String| s@)) is None,
        },
{
    let ghost pv = paths@.map_values(|s: String| s@);
    let mut i: usize = 0;
    while i < paths.len()
        invariant
            i <= paths@.len(),
            pv == paths@.map_values(|s: String| s@),
            forall|j: int|
                0 <= j < i ==> !(pv[j].len() >= 5 && #[trigger] pv[j].skip(pv[j].len() - 5) == "/hci0"@),
        decreases paths@.len() - i,
    {
        let c = str_chars(paths[i].as_str());
        if ends_with_hci0(c.as_slice()) {
            assert(pv[i as int] == c@);
            assert(pv[i as int].len() >= 5 && pv[i as int].skip(pv[i as int].len() - 5) == "/hci0"@);
            let ghost ch = choose|k: int|
                0 <= k < pv.len() && pv[k].len() >= 5 && #[trigger] pv[k].skip(pv[k].len() - 5) == "/hci0"@
                    && forall|j: int|
                    0 <= j < k ==> !(pv[j].len() >= 5 && #[trigger] pv[j].skip(pv[j].len() - 5) == "/hci0"@);
            assert(ch == i as int) by {
                if ch < i {
                } else if ch > i {
                }
            }
            return Some(i);
        }
        assert(pv[i as int] == c@);
        i += 1;
    }
    if paths.len() > 0 {
        Some(0)
    } else {
        None
    }
}

/// A Wi-Fi request written with the right key (its separators being the first ones
/// found) configures the network it names, on both Wi-Fi characteristics.
pub proof fn law_wifi_write_configures(key: Seq<char>, ssid: Seq<char>, password: Seq<char>)
    requires
        find_from(request_text(key, ssid, password), sep_chars(), 0) == Some(key.len() as int),
        find_from(request_text(key, ssid, password), sep_chars(), key.len() + 3int) == Some(
            key.len() + 3 + ssid.len() as int,
        ),
        find_from(request_text(key, ssid, password), sep_chars(), key.len() + ssid.len() + 6int) is None,
    ensures
        wifi_request_outcome(
            encode_utf8(request_text(key, ssid, password)),
            key,
            INPUT_SYNTAX_REPLY@,
            INPUT_KEY_REPLY@,
        ) == Ok::<(Seq<char>, Seq<char>), Seq<char>>((ssid, password)),
        wifi_request_outcome(
            encode_utf8(request_text(key, ssid, password)),
            key,
            SEP_SYNTAX_REPLY@,
            SEP_KEY_REPLY@,
        ) == Ok::<(Seq<char>, Seq<char>), Seq<char>>((ssid, password)),
{
    law_wifi_request_round_trip(key, ssid, password);
}

/// A custom command message asking, with the right key, for the command at 0-based
/// position `i` by its 1-based suffix runs that command (no command carrying an explicit
/// UUID, and the key forming no separator before the one written).
pub proof fn law_command_message_runs_addressed_command(
    key: Seq<char>,
    commands: Seq<CustomCommandItem>,
    i: nat,
)
    requires
        key.len() > 0,
        i < commands.len(),
        i < 65535,
        forall|k: int| 0 <= k < commands.len() ==> (#[trigger] commands[k]).uuid is None,
        find_from(command_request_text(key, upper_hex(i + 1, 4)), concat_tag_chars(), 0) == Some(
            key.len() as int,
        ),
    ensures
        command_outcome(encode_utf8(command_request_text(key, upper_hex(i + 1, 4))), key, commands)
            == Ok::<Seq<char>, Seq<char>>(commands[i as int].command@),
{
    law_command_request_resolves(key, commands, i);
}

} // verus!
