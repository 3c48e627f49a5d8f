//! Custom commands: parsing `key%&%XXXX` requests, mapping the suffix to a configured
//! command, and the reply sent back to the client.
use vstd::prelude::*;
use vstd::utf8::{valid_utf8, decode_utf8, encode_utf8_decode_utf8, encode_utf8_valid_utf8};
use vstd::string::{StringExecFns, StringSliceAdditionalSpecFns};
use vstd::utf8::encode_utf8;
use crate::text::{
    split_seq, trim, all_hex, hex_upper, hex_value, hex_digit_value, is_hex_digit, str_chars,
    string_from_chars, utf8_chars, split_chars, trim_chars, is_hex_char, hex_upper_char, chars_eq,
    find_from, split_from, occurs_at, leading_ws, trailing_ws, trim_start, trim_end, lemma_find_none,
};
pub use crate::config::CustomCommandItem;
use crate::uuid::{upper_hex, upper_hex_digit};

verus! {

/// Default timeout of a custom command, in seconds.
pub const DEFAULT_CUSTOM_COMMAND_TIMEOUT_SECS: u64 = 15;

/// Default cap on the captured output of a custom command.
pub const DEFAULT_CUSTOM_COMMAND_MAX_BYTES: usize = 32 * 1024;

/// The request field separator `%&%` as characters.
pub open spec fn concat_tag_chars() -> Seq<char> {
    seq!['%', '&', '%']
}

fn concat_tag_vec() -> (r: Vec<char>)
    ensures
        r@ == concat_tag_chars(),
{
    let r = vec!['%', '&', '%'];
    assert(r@ =~= concat_tag_chars());
    r
}

/// A parsed custom command request.
#[derive(Debug, Clone, PartialEq, Eq)]
pub struct CustomCommandRequest {
    pub key: String,
    /// 4 hex digits, uppercase, 1-based index (0001 == first command).
    pub suffix: String,
}

/// Why a custom command request could not be parsed.
#[derive(Debug, Clone, Copy, PartialEq, Eq)]
pub enum CustomCommandParseError {
    InvalidUtf8,
    InvalidSyntax,
    InvalidSuffix,
}

impl CustomCommandParseError {
    /// Human readable description.
    pub fn message(&self) -> (r: &'static str)
        ensures
            r@ == match self {
                CustomCommandParseError::InvalidUtf8 => "invalid utf-8"@,
                CustomCommandParseError::InvalidSyntax => "invalid syntax"@,
                CustomCommandParseError::InvalidSuffix => "invalid uuid suffix"@,
            },
    {
        match self {
            CustomCommandParseError::InvalidUtf8 => "invalid utf-8",
            CustomCommandParseError::InvalidSyntax => "invalid syntax",
            CustomCommandParseError::InvalidSuffix => "invalid uuid suffix",
        }
    }
}

/// The suffix designated by a raw request field: the last `-`-separated segment,
/// trimmed, whose last four characters must be hexadecimal digits; upper-cased.
pub open spec fn suffix_of(raw: Seq<char>) -> Option<Seq<char>> {
    let t = trim(split_seq(raw, seq!['-']).last());
    if t.len() < 4 {
        None
    } else {
        let sfx = t.subrange(t.len() - 4, t.len() as int);
        if all_hex(sfx) {
            Some(sfx.map_values(|c: char| hex_upper(c)))
        } else {
            None
        }
    }
}

/// The outcome of parsing the text of a request: key and suffix, or the error.
pub open spec fn parse_request_text(text: Seq<char>) -> Result<
    (Seq<char>, Seq<char>),
    CustomCommandParseError,
> {
    let parts = split_seq(text, concat_tag_chars());
    if parts.len() < 2 || parts[0].len() == 0 || parts[1].len() == 0 {
        Err(CustomCommandParseError::InvalidSyntax)
    } else {
        match suffix_of(parts[1]) {
            Some(sfx) => Ok((parts[0], sfx)),
            None => Err(CustomCommandParseError::InvalidSuffix),
        }
    }
}

/// The outcome of parsing a request payload.
pub open spec fn parse_request_bytes(payload: Seq<u8>) -> Result<
    (Seq<char>, Seq<char>),
    CustomCommandParseError,
> {
    if !valid_utf8(payload) {
        Err(CustomCommandParseError::InvalidUtf8)
    } else {
        parse_request_text(decode_utf8(payload))
    }
}

/// Normalise a raw suffix field (see `suffix_of`).
fn normalize_suffix_chars(raw: &[char]) -> (r: Option<Vec<char>>)
    ensures
        match suffix_of(raw@) {
            Some(s) => r matches Some(v) && v@ == s,
            None => r is None,
        },
{
    let dash = vec!['-'];
    assert(dash@ =~= seq!['-']);
    let segments = split_chars(raw, dash.as_slice());
    proof {
        crate::text::lemma_split_from_last_clean(raw@, seq!['-'], 0);
    }
    let last = segments.len() - 1;
    assert(segments@[last as int]@ == split_seq(raw@, seq!['-']).last());
    let tail = trim_chars(segments[last].as_slice());
    let n = tail.len();
    assert(tail@ == trim(split_seq(raw@, seq!['-']).last()));
    if n < 4 {
        return None;
    }
    let mut out: Vec<char> = Vec::new();
    let mut i: usize = n - 4;
    while i < n
        invariant
            n == tail@.len(),
            tail@ == trim(split_seq(raw@, seq!['-']).last()),
            n >= 4,
            n - 4 <= i <= n,
            out@.len() == i - (n - 4),
            forall|k: int| n - 4 <= k < i ==> is_hex_digit(#[trigger] tail@[k]),
            forall|k: int| 0 <= k < out@.len() ==> out@[k] == hex_upper(tail@[n - 4 + k]),
        decreases n - i,
    {
        let c = tail[i];
        if !is_hex_char(c) {
            assert(tail@.subrange(n - 4, n as int)[i - (n - 4)] == c);
            return None;
        }
        out.push(hex_upper_char(c));
        i += 1;
    }
    let ghost sfx = tail@.subrange(n - 4, n as int);
    assert(all_hex(sfx));
    assert(out@ =~= sfx.map_values(|c: char| hex_upper(c)));
    Some(out)
}

/// Normalise the suffix named by a UUID-like string (see `suffix_of`).
fn normalize_suffix(raw: &str) -> (r: Option<Vec<char>>)
    ensures
        match suffix_of(raw@) {
            Some(s) => r matches Some(v) && v@ == s,
            None => r is None,
        },
{
    let chars = str_chars(raw);
    normalize_suffix_chars(chars.as_slice())
}

/// Parse a framed request payload `key%&%XXXX`, where `XXXX` is a 4-hex suffix; a
/// longer UUID (its last 4 hex digits) or a dashed UUID (its last segment) is accepted
/// too, and fields after the second are ignored.
pub fn parse_custom_command_request(payload: &[u8]) -> (r: Result<
    CustomCommandRequest,
    CustomCommandParseError,
>)
    ensures
        match parse_request_bytes(payload@) {
            Ok((key, sfx)) => r matches Ok(req) && req.key@ == key && req.suffix@ == sfx,
            Err(e) => r == Err::<CustomCommandRequest, CustomCommandParseError>(e),
        },
{
    let text = match utf8_chars(payload) {
        Some(t) => t,
        None => return Err(CustomCommandParseError::InvalidUtf8),
    };
    let sep = concat_tag_vec();
    let parts = split_chars(text.as_slice(), sep.as_slice());
    if parts.len() < 2 || parts[0].len() == 0 || parts[1].len() == 0 {
        return Err(CustomCommandParseError::InvalidSyntax);
    }
    assert(parts@[0]@ == split_seq(text@, concat_tag_chars())[0]);
    assert(parts@[1]@ == split_seq(text@, concat_tag_chars())[1]);
    let suffix = match normalize_suffix_chars(parts[1].as_slice()) {
        Some(s) => s,
        None => return Err(CustomCommandParseError::InvalidSuffix),
    };
    Ok(CustomCommandRequest {
        key: string_from_chars(parts[0].as_slice()),
        suffix: string_from_chars(suffix.as_slice()),
    })
}

/// Powers of sixteen.
pub open spec fn pow16(n: nat) -> nat
    decreases n,
{
    if n == 0 {
        1
    } else {
        16 * pow16((n - 1) as nat)
    }
}

/// What `u16::from_str_radix(s, 16)` gives on a 4-character string: an optional `+`
/// followed by hexadecimal digits; `None` for any other string.
pub open spec fn suffix_value(s: Seq<char>) -> Option<nat> {
    if s.len() != 4 {
        None
    } else if all_hex(s) {
        Some(hex_value(s))
    } else if s[0] == '+' && all_hex(s.drop_first()) {
        Some(hex_value(s.drop_first()))
    } else {
        None
    }
}

/// The 0-based command index a suffix designates (the protocol is 1-based).
pub open spec fn index0_of(s: Seq<char>) -> Option<nat> {
    match suffix_value(s) {
        Some(n) => if n == 0 {
            None
        } else {
            Some((n - 1) as nat)
        },
        None => None,
    }
}

/// The value of a string of hexadecimal digits of length at most 4.
fn hex_digits_value(s: &[char]) -> (r: u16)
    requires
        s@.len() <= 4,
        all_hex(s@),
    ensures
        r == hex_value(s@),
{
    let mut v: u32 = 0;
    let mut i: usize = 0;
    while i < s.len()
        invariant
            s@.len() <= 4,
            all_hex(s@),
            i <= s@.len(),
            v == hex_value(s@.take(i as int)),
            v + 1 <= pow16(i as nat),
        decreases s@.len() - i,
    {
        let c = s[i];
        assert(is_hex_digit(s@[i as int]));
        let d: u32 = if '0' <= c && c <= '9' {
            (c as u32) - ('0' as u32)
        } else if 'a' <= c && c <= 'f' {
            (c as u32) - ('a' as u32) + 10
        } else {
            (c as u32) - ('A' as u32) + 10
        };
        assert(d == hex_digit_value(c));
        assert(d <= 15);
        proof {
            assert(s@.take(i + 1).drop_last() =~= s@.take(i as int));
            assert(s@.take(i + 1).last() == c);
            assert(pow16((i + 1) as nat) == 16 * pow16(i as nat));
            assert(pow16(4) == 65536) by {
                reveal_with_fuel(pow16, 5);
            }
            lemma_pow16_mono(i as nat + 1, 4);
        }
        v = v * 16 + d;
        i += 1;
    }
    assert(s@.take(i as int) =~= s@);
    proof {
        lemma_pow16_mono(i as nat, 4);
        assert(pow16(4) == 65536) by {
            reveal_with_fuel(pow16, 5);
        }
    }
    v as u16
}

proof fn lemma_pow16_mono(a: nat, b: nat)
    requires
        a <= b,
    ensures
        pow16(a) <= pow16(b),
    decreases b,
{
    if a < b {
        lemma_pow16_mono(a, (b - 1) as nat);
    }
}

/// `u16::from_str_radix(s, 16)` on a 4-character suffix; `None` for other lengths.
pub fn suffix_to_u16(s: &[char]) -> (r: Option<u16>)
    ensures
        match suffix_value(s@) {
            Some(n) => n < 65536 && r == Some(n as u16),
            None => r is None,
        },
{
    if s.len() != 4 {
        return None;
    }
    let mut all: bool = true;
    let mut i: usize = 0;
    while i < 4
        invariant
            s@.len() == 4,
            i <= 4,
            all == (forall|k: int| 0 <= k < i ==> is_hex_digit(#[trigger] s@[k])),
        decreases 4 - i,
    {
        if !is_hex_char(s[i]) {
            all = false;
        }
        i += 1;
    }
    if all {
        return Some(hex_digits_value(s));
    }
    if s[0] == '+' {
        let rest = vstd::slice::slice_subrange(s, 1, 4);
        assert(rest@ =~= s@.drop_first());
        let mut j: usize = 0;
        while j < 3
            invariant
                rest@.len() == 3,
                s@.len() == 4,
                rest@ == s@.drop_first(),
                j <= 3,
                forall|k: int| 0 <= k < j ==> is_hex_digit(#[trigger] rest@[k]),
            decreases 3 - j,
        {
            if !is_hex_char(rest[j]) {
                assert(!is_hex_digit(rest@[j as int]));
                assert(!all_hex(s@.drop_first()));
                return None;
            }
            j += 1;
        }
        return Some(hex_digits_value(rest));
    }
    None
}

/// The 0-based index a 1-based 4-hex suffix designates (`0001` is index 0).
pub fn index0_from_suffix(suffix: &str) -> (r: Option<usize>)
    ensures
        match index0_of(suffix@) {
            Some(n) => n < 65535 && r == Some(n as usize),
            None => r is None,
        },
{
    let chars = str_chars(suffix);
    match suffix_to_u16(chars.as_slice()) {
        Some(n) => if n == 0 {
            None
        } else {
            Some((n - 1) as usize)
        },
        None => None,
    }
}

/// A command whose explicit UUID names `suffix`.
pub open spec fn uuid_names(item: CustomCommandItem, suffix: Seq<char>) -> bool {
    item.uuid matches Some(u) && suffix_of(u@) == Some(suffix)
}

/// The first command at or after `i` whose UUID names `suffix`.
pub open spec fn first_uuid_match(commands: Seq<CustomCommandItem>, suffix: Seq<char>, i: int) -> Option<int>
    decreases commands.len() - i,
{
    if i < 0 || i >= commands.len() {
        None
    } else if uuid_names(commands[i], suffix) {
        Some(i)
    } else {
        first_uuid_match(commands, suffix, i + 1)
    }
}

/// The command `suffix` designates: the first one whose UUID names it, else the
/// one at the 1-based index it spells.
pub open spec fn command_index(commands: Seq<CustomCommandItem>, suffix: Seq<char>) -> Option<int> {
    match first_uuid_match(commands, suffix, 0) {
        Some(i) => Some(i),
        None => match index0_of(suffix) {
            Some(k) => if k < commands.len() {
                Some(k as int)
            } else {
                None
            },
            None => None,
        },
    }
}

/// The shell command a suffix designates.
pub fn command_for_suffix<'a>(commands: &'a [CustomCommandItem], suffix: &str) -> (r: Option<&'a str>)
    ensures
        match command_index(commands@, suffix@) {
            Some(i) => r matches Some(c) && c@ == commands@[i].command@,
            None => r is None,
        },
{
    let suffix_chars = str_chars(suffix);
    let mut i: usize = 0;
    while i < commands.len()
        invariant
            i <= commands@.len(),
            suffix_chars@ == suffix@,
            first_uuid_match(commands@, suffix@, 0) == first_uuid_match(commands@, suffix@, i as int),
        decreases commands@.len() - i,
    {
        let cmd = &commands[i];
        let mut named = false;
        match &cmd.uuid {
            Some(uuid) => {
                match normalize_suffix(uuid.as_str()) {
                    Some(n) => {
                        named = chars_eq(n.as_slice(), suffix_chars.as_slice());
                    },
                    None => {},
                }
            },
            None => {},
        }
        assert(named == uuid_names(commands@[i as int], suffix@));
        if named {
            assert(first_uuid_match(commands@, suffix@, i as int) == Some(i as int));
            assert(command_index(commands@, suffix@) == Some(i as int));
            return Some(cmd.command.as_str());
        }
        assert(first_uuid_match(commands@, suffix@, i as int) == first_uuid_match(commands@, suffix@, i + 1));
        i += 1;
    }
    assert(first_uuid_match(commands@, suffix@, 0) is None);
    let idx = match index0_from_suffix(suffix) {
        Some(k) => k,
        None => return None,
    };
    if idx < commands.len() {
        Some(commands[idx].command.as_str())
    } else {
        None
    }
}

/// Errors answered to a custom command request.
#[derive(Debug, Clone, PartialEq, Eq)]
pub enum CustomCommandError {
    InvalidSyntax,
    InvalidKey,
    InvalidUuid,
    CommandNotFound,
    ExecError(String),
}

impl CustomCommandError {
    /// The text answered to the client.
    pub fn message(&self) -> (r: String)
        ensures
            r@ == match self {
                CustomCommandError::InvalidSyntax => "Invalid syntax."@,
                CustomCommandError::InvalidKey => "Invalid key."@,
                CustomCommandError::InvalidUuid => "Invalid UUID."@,
                CustomCommandError::CommandNotFound => "Command not found."@,
                CustomCommandError::ExecError(e) => "exec error: "@ + e@,
            },
    {
        match self {
            CustomCommandError::InvalidSyntax => String::from_str("Invalid syntax."),
            CustomCommandError::InvalidKey => String::from_str("Invalid key."),
            CustomCommandError::InvalidUuid => String::from_str("Invalid UUID."),
            CustomCommandError::CommandNotFound => String::from_str("Command not found."),
            CustomCommandError::ExecError(e) => String::from_str("exec error: ").concat(e.as_str()),
        }
    }
}

impl From<CustomCommandParseError> for CustomCommandError {
    fn from(e: CustomCommandParseError) -> (r: Self) {
        match e {
            CustomCommandParseError::InvalidUtf8 => CustomCommandError::InvalidSyntax,
            CustomCommandParseError::InvalidSyntax => CustomCommandError::InvalidSyntax,
            CustomCommandParseError::InvalidSuffix => CustomCommandError::InvalidUuid,
        }
    }
}

impl vstd::std_specs::convert::FromSpecImpl<CustomCommandParseError> for CustomCommandError {
    open spec fn obeys_from_spec() -> bool {
        true
    }

    open spec fn from_spec(e: CustomCommandParseError) -> Self {
        error_of_parse_error(e)
    }
}

/// The error answered for a request that could not be parsed.
pub open spec fn error_of_parse_error(e: CustomCommandParseError) -> CustomCommandError {
    match e {
        CustomCommandParseError::InvalidUtf8 => CustomCommandError::InvalidSyntax,
        CustomCommandParseError::InvalidSyntax => CustomCommandError::InvalidSyntax,
        CustomCommandParseError::InvalidSuffix => CustomCommandError::InvalidUuid,
    }
}


/// The UTF-8 bytes of a string.
pub fn string_bytes(s: &str) -> (r: Vec<u8>)
    ensures
        r@ == encode_utf8(s@),
{
    vstd::slice::slice_to_vec(s.as_bytes())
}

impl CustomCommandError {
    /// The bytes answered to the client for this error.
    pub fn reply_bytes(&self) -> (r: Vec<u8>)
        ensures
            r@ == encode_utf8(self.message_spec()),
    {
        let m = self.message();
        string_bytes(m.as_str())
    }

    /// The text answered to the client.
    pub open spec fn message_spec(&self) -> Seq<char> {
        match self {
            CustomCommandError::InvalidSyntax => "Invalid syntax."@,
            CustomCommandError::InvalidKey => "Invalid key."@,
            CustomCommandError::InvalidUuid => "Invalid UUID."@,
            CustomCommandError::CommandNotFound => "Command not found."@,
            CustomCommandError::ExecError(e) => "exec error: "@ + e@,
        }
    }
}

/// What a custom command request resolves to: the command to run, or the error answered.
pub open spec fn resolve_spec(
    expected_key: Seq<char>,
    commands: Seq<CustomCommandItem>,
    payload: Seq<u8>,
) -> Result<int, CustomCommandError> {
    match parse_request_bytes(payload) {
        Err(e) => Err(error_of_parse_error(e)),
        Ok((key, sfx)) => if key != expected_key {
            Err(CustomCommandError::InvalidKey)
        } else {
            match command_index(commands, sfx) {
                Some(i) => Ok(i),
                None => Err(CustomCommandError::CommandNotFound),
            }
        },
    }
}

/// Resolve a framed custom command request: validate the key, then map the suffix to a
/// configured command (by explicit UUID first, else by 1-based index).
pub fn resolve_custom_command<'a>(
    expected_key: &str,
    commands: &'a [CustomCommandItem],
    framed_payload: &[u8],
) -> (r: Result<&'a str, CustomCommandError>)
    ensures
        match resolve_spec(expected_key@, commands@, framed_payload@) {
            Ok(i) => r matches Ok(c) && c@ == commands@[i].command@,
            Err(e) => r == Err::<&str, CustomCommandError>(e),
        },
{
    let req = match parse_custom_command_request(framed_payload) {
        Ok(r) => r,
        Err(e) => return Err(CustomCommandError::from(e)),
    };
    let key_chars = str_chars(req.key.as_str());
    let expected_chars = str_chars(expected_key);
    if !chars_eq(key_chars.as_slice(), expected_chars.as_slice()) {
        return Err(CustomCommandError::InvalidKey);
    }
    match command_for_suffix(commands, req.suffix.as_str()) {
        Some(c) => Ok(c),
        None => Err(CustomCommandError::CommandNotFound),
    }
}

/// The bytes answered once a custom command has run: its stdout then its stderr, or
/// `exec error: ` and the error's text when it could not be run.
pub fn exec_output_reply(outcome: Result<(&[u8], &[u8]), &str>) -> (r: Vec<u8>)
    ensures
        r@ == match outcome {
            Ok((out, err)) => out@ + err@,
            Err(e) => encode_utf8("exec error: "@ + e@),
        },
{
    match outcome {
        Ok((out, err)) => {
            let mut bytes = vstd::slice::slice_to_vec(out);
            let tail = vstd::slice::slice_to_vec(err);
            let mut tail_mut = tail;
            bytes.append(&mut tail_mut);
            bytes
        },
        Err(e) => {
            let msg = String::from_str("exec error: ").concat(e);
            string_bytes(msg.as_str())
        },
    }
}


proof fn lemma_upper_hex_digit(d: nat)
    requires
        d < 16,
    ensures
        is_hex_digit(upper_hex_digit(d)),
        hex_digit_value(upper_hex_digit(d)) == d,
        '0' <= upper_hex_digit(d) <= '9' || 'A' <= upper_hex_digit(d) <= 'F',
{
}

/// The digits of `upper_hex(n, w)`: at least `w` of them, exactly `w` when `n` is below
/// `16^w`, all hexadecimal (upper case), and they spell `n`.
pub proof fn lemma_upper_hex(n: nat, w: nat)
    ensures
        upper_hex(n, w).len() >= w,
        n < pow16(w) ==> upper_hex(n, w).len() == w,
        n >= pow16(w) ==> upper_hex(n, w).len() > w,
        all_hex(upper_hex(n, w)),
        forall|i: int|
            0 <= i < upper_hex(n, w).len() ==> ('0' <= #[trigger] upper_hex(n, w)[i] <= '9' || 'A'
                <= upper_hex(n, w)[i] <= 'F'),
        hex_value(upper_hex(n, w)) == n,
    decreases n, w,
{
    if n == 0 && w == 0 {
    } else {
        let w2: nat = if w > 0 { (w - 1) as nat } else { 0 };
        let q = n / 16;
        let d = n % 16;
        lemma_upper_hex(q, w2);
        lemma_upper_hex_digit(d);
        let x = upper_hex(q, w2);
        assert(upper_hex(n, w) == x.push(upper_hex_digit(d)));
        assert(x.push(upper_hex_digit(d)).drop_last() =~= x);
        assert(hex_value(upper_hex(n, w)) == q * 16 + d);
        if w > 0 {
            assert(pow16(w) == 16 * pow16(w2));
            if n < pow16(w) {
                assert(q < pow16(w2)) by (nonlinear_arith)
                    requires
                        n < 16 * pow16(w2),
                        q == n / 16,
                ;
            } else {
                assert(q >= pow16(w2)) by (nonlinear_arith)
                    requires
                        n >= 16 * pow16(w2),
                        q == n / 16,
                ;
            }
        } else {
            assert(pow16(0) == 1);
        }
    }
}

/// Numbering is 1-based both ways: the 4-hex suffix given to the item at 0-based index
/// `i` is four upper-case hexadecimal digits, reads back as `i + 1`, and designates index
/// `i` again.
pub proof fn law_suffix_round_trip(i: nat)
    requires
        i < 65535,
    ensures
        upper_hex(i + 1, 4).len() == 4,
        forall|k: int|
            0 <= k < 4 ==> ('0' <= #[trigger] upper_hex(i + 1, 4)[k] <= '9' || 'A' <= upper_hex(
                i + 1,
                4,
            )[k] <= 'F'),
        suffix_value(upper_hex(i + 1, 4)) == Some((i + 1) as nat),
        index0_of(upper_hex(i + 1, 4)) == Some(i),
{
    assert(pow16(4) == 65536) by {
        reveal_with_fuel(pow16, 5);
    }
    lemma_upper_hex(i + 1, 4);
}

proof fn lemma_no_uuid_match(commands: Seq<CustomCommandItem>, suffix: Seq<char>, i: int)
    requires
        0 <= i,
        forall|k: int| 0 <= k < commands.len() ==> (#[trigger] commands[k]).uuid is None,
    ensures
        first_uuid_match(commands, suffix, i) is None,
    decreases commands.len() - i,
{
    if i < commands.len() {
        lemma_no_uuid_match(commands, suffix, i + 1);
    }
}

/// Without explicit UUIDs, the command at 0-based position `i` is the one the suffix of
/// its 1-based position designates (`0001` is the first).
pub proof fn law_command_addressed_by_position(commands: Seq<CustomCommandItem>, i: nat)
    requires
        i < commands.len(),
        i < 65535,
        forall|k: int| 0 <= k < commands.len() ==> (#[trigger] commands[k]).uuid is None,
    ensures
        command_index(commands, upper_hex(i + 1, 4)) == Some(i as int),
{
    law_suffix_round_trip(i);
    lemma_no_uuid_match(commands, upper_hex(i + 1, 4), 0);
}

/// The request a client writes for a command: key and suffix joined by `%&%`.
pub open spec fn command_request_text(key: Seq<char>, suffix: Seq<char>) -> Seq<char> {
    key + concat_tag_chars() + suffix
}

/// Hexadecimal digits are no whitespace: trimming leaves them as they are.
proof fn lemma_trim_hex(s: Seq<char>)
    requires
        all_hex(s),
    ensures
        trim(s) == s,
{
    if s.len() > 0 {
        assert(is_hex_digit(s[0]));
        assert(leading_ws(s) == 0);
        assert(trim_start(s) =~= s);
        assert(is_hex_digit(s.last()));
        assert(trailing_ws(s) == 0);
        assert(trim_end(s) =~= s);
    } else {
        assert(trim(s) =~= s);
    }
}

/// A request a client writes with a 4-digit hexadecimal suffix parses back to its key
/// and the upper-cased suffix, whenever the key is not empty and the separator it wrote
/// is the first one found.
pub proof fn law_command_request_round_trip(key: Seq<char>, suffix: Seq<char>)
    requires
        key.len() > 0,
        suffix.len() == 4,
        all_hex(suffix),
        find_from(command_request_text(key, suffix), concat_tag_chars(), 0) == Some(key.len() as int),
    ensures
        parse_request_bytes(encode_utf8(command_request_text(key, suffix))) == Ok::<
            (Seq<char>, Seq<char>),
            CustomCommandParseError,
        >((key, suffix.map_values(|c: char| hex_upper(c)))),
{
    let t = command_request_text(key, suffix);
    let sep = concat_tag_chars();
    encode_utf8_valid_utf8(t);
    encode_utf8_decode_utf8(t);
    let a = key.len() as int;
    assert(t.subrange(0, a) =~= key);
    assert(t.subrange(a + 3, t.len() as int) =~= suffix);
    assert forall|q: int| a + 3 <= q implies !occurs_at(t, sep, q) by {
        if occurs_at(t, sep, q) {
            assert(t.subrange(q, q + 3)[0] == t[q]);
            assert(t[q] == suffix[q - a - 3]);
            assert(is_hex_digit(suffix[q - a - 3]));
        }
    }
    lemma_find_none(t, sep, a + 3);
    let parts = split_from(t, sep, 0);
    assert(split_from(t, sep, a + 3) == seq![suffix]);
    assert(parts == seq![key] + seq![suffix]);
    assert(parts[0] == key);
    assert(parts[1] == suffix);
    assert forall|q: int| 0 <= q implies !occurs_at(suffix, seq!['-'], q) by {
        if occurs_at(suffix, seq!['-'], q) {
            assert(suffix.subrange(q, q + 1)[0] == suffix[q]);
            assert(is_hex_digit(suffix[q]));
        }
    }
    lemma_find_none(suffix, seq!['-'], 0);
    assert(split_seq(suffix, seq!['-']) == seq![suffix.subrange(0, 4)]);
    assert(suffix.subrange(0, 4) =~= suffix);
    lemma_trim_hex(suffix);
    assert(suffix.subrange(suffix.len() - 4, suffix.len() as int) =~= suffix);
}

/// A client asking, with the right key, for the command at 0-based position `i` by the
/// 1-based suffix of that position gets that command, when no command carries an
/// explicit UUID and the key forms no separator before the one written.
pub proof fn law_command_request_resolves(key: Seq<char>, commands: Seq<CustomCommandItem>, i: nat)
    requires
        key.len() > 0,
        i < commands.len(),
        i < 65535,
        forall|k: int| 0 <= k < commands.len() ==> (#[trigger] commands[k]).uuid is None,
        find_from(command_request_text(key, upper_hex(i + 1, 4)), concat_tag_chars(), 0) == Some(
            key.len() as int,
        ),
    ensures
        resolve_spec(key, commands, encode_utf8(command_request_text(key, upper_hex(i + 1, 4))))
            == Ok::<int, CustomCommandError>(i as int),
{
    let sfx = upper_hex(i + 1, 4);
    law_suffix_round_trip(i);
    lemma_upper_hex(i + 1, 4);
    law_command_request_round_trip(key, sfx);
    assert(sfx.map_values(|c: char| hex_upper(c)) =~= sfx) by {
        assert forall|k: int| 0 <= k < sfx.len() implies hex_upper(sfx[k]) == sfx[k] by {
            assert('0' <= sfx[k] <= '9' || 'A' <= sfx[k] <= 'F');
        }
    }
    law_command_addressed_by_position(commands, i);
}

} // verus!
