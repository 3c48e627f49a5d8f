//! Wi-Fi configuration: request parsing, `wpa_supplicant.conf` editing and the
//! decisions taken on the output of `nmcli`, `wpa_passphrase` and `/etc/network/interfaces`.
use vstd::prelude::*;
use vstd::utf8::{valid_utf8, decode_utf8, encode_utf8, encode_utf8_decode_utf8, encode_utf8_valid_utf8};
use vstd::string::StringExecFns;
use crate::text::{
    find_from, split_seq, trim_start, trim, trim_end, str_chars, string_from_chars, utf8_chars,
    split_chars, find_chars_from, trim_start_index, trim_end_index, trim_chars, lemma_find_from_bounds, lines,
    lines_chars, char_views, contains_seq, contains_chars, starts_with_chars, words,
    lemma_trim_start_len, lemma_word_len_bounds, word_len, utf8_lossy, utf8_lossy_text,
    join_with, join_chars, replace_all, replace_chars, decimal, decimal_chars, chars_eq, occurs_at,
    leading_ws, split_from, lemma_find_none,
};

verus! {

/// Timeout of the commands run while configuring Wi-Fi, in seconds.
pub const DEFAULT_WIFI_EXEC_TIMEOUT_SECS: u64 = 20;

/// Cap on the captured output of those commands.
pub const DEFAULT_WIFI_MAX_OUTPUT_BYTES: usize = 16 * 1024;

/// Interface used when none is detected.
pub const DEFAULT_WIFI_INTERFACE: &'static str = "wlan0";

/// Path of the wpa_supplicant configuration.
pub const WPA_SUPPLICANT_CONF_PATH: &'static str = "/etc/wpa_supplicant/wpa_supplicant.conf";

/// Path of the Debian network interfaces file.
pub const NETWORK_INTERFACES_PATH: &'static str = "/etc/network/interfaces";

/// Severity of a status line streamed back to the client.
#[derive(Debug, Clone, Copy, PartialEq, Eq)]
pub enum WifiStepKind {
    Info,
    Warn,
    Error,
}

/// A status line streamed back to the client while configuring Wi-Fi.
#[derive(Debug, Clone)]
pub struct WifiStep {
    pub kind: WifiStepKind,
    pub message: String,
}

impl WifiStep {
    pub fn info(message: String) -> (r: Self)
        ensures
            r.kind == WifiStepKind::Info,
            r.message == message,
    {
        WifiStep { kind: WifiStepKind::Info, message }
    }

    pub fn warn(message: String) -> (r: Self)
        ensures
            r.kind == WifiStepKind::Warn,
            r.message == message,
    {
        WifiStep { kind: WifiStepKind::Warn, message }
    }

    pub fn error(message: String) -> (r: Self)
        ensures
            r.kind == WifiStepKind::Error,
            r.message == message,
    {
        WifiStep { kind: WifiStepKind::Error, message }
    }

    /// The text shown to the client (the message alone, whatever the kind).
    pub fn text(&self) -> (r: String)
        ensures
            r@ == self.message@,
    {
        self.message.clone()
    }
}

/// A parsed Wi-Fi request.
#[derive(Debug, Clone, PartialEq, Eq)]
pub struct WifiRequest {
    pub key: String,
    pub ssid: String,
    pub password: String,
}

/// Why a Wi-Fi request payload could not be parsed.
#[derive(Debug, Clone, Copy, PartialEq, Eq)]
pub enum ParseWifiRequestError {
    InvalidUtf8,
    InvalidSyntax,
}

impl ParseWifiRequestError {
    /// Human readable description.
    pub fn message(&self) -> (r: &'static str)
        ensures
            r@ == match self {
                ParseWifiRequestError::InvalidUtf8 => "payload is not valid UTF-8"@,
                ParseWifiRequestError::InvalidSyntax => "invalid syntax: expected key%&%ssid%&%password"@,
            },
    {
        match self {
            ParseWifiRequestError::InvalidUtf8 => "payload is not valid UTF-8",
            ParseWifiRequestError::InvalidSyntax => "invalid syntax: expected key%&%ssid%&%password",
        }
    }
}

/// The request separator `%&%` as characters.
pub open spec fn sep_chars() -> Seq<char> {
    seq!['%', '&', '%']
}

/// The outcome of parsing a Wi-Fi request payload: key, SSID and password (the first
/// three `%&%`-separated fields; further fields are ignored), or the error.
pub open spec fn wifi_request_spec(payload: Seq<u8>) -> Result<
    (Seq<char>, Seq<char>, Seq<char>),
    ParseWifiRequestError,
> {
    if !valid_utf8(payload) {
        Err(ParseWifiRequestError::InvalidUtf8)
    } else {
        let parts = split_seq(decode_utf8(payload), sep_chars());
        if parts.len() < 3 {
            Err(ParseWifiRequestError::InvalidSyntax)
        } else {
            Ok((parts[0], parts[1], parts[2]))
        }
    }
}

/// Parse a complete (reassembled, terminator removed) payload `key%&%ssid%&%password`.
pub fn parse_wifi_request(payload: &[u8]) -> (r: Result<WifiRequest, ParseWifiRequestError>)
    ensures
        match wifi_request_spec(payload@) {
            Ok((k, s, p)) => r matches Ok(req) && req.key@ == k && req.ssid@ == s && req.password@ == p,
            Err(e) => r == Err::<WifiRequest, ParseWifiRequestError>(e),
        },
{
    let text = match utf8_chars(payload) {
        Some(t) => t,
        None => return Err(ParseWifiRequestError::InvalidUtf8),
    };
    let sep = vec!['%', '&', '%'];
    assert(sep@ =~= sep_chars());
    let parts = split_chars(text.as_slice(), sep.as_slice());
    if parts.len() < 3 {
        return Err(ParseWifiRequestError::InvalidSyntax);
    }
    assert(parts@[0]@ == split_seq(text@, sep_chars())[0]);
    assert(parts@[1]@ == split_seq(text@, sep_chars())[1]);
    assert(parts@[2]@ == split_seq(text@, sep_chars())[2]);
    Ok(WifiRequest {
        key: string_from_chars(parts[0].as_slice()),
        ssid: string_from_chars(parts[1].as_slice()),
        password: string_from_chars(parts[2].as_slice()),
    })
}

/// `s` with `\` and `"` escaped by a backslash, for a quoted wpa_supplicant value.
pub open spec fn wpa_escape_spec(s: Seq<char>) -> Seq<char>
    decreases s.len(),
{
    if s.len() == 0 {
        Seq::empty()
    } else {
        wpa_escape_spec(s.drop_last()) + if s.last() == '\\' {
            seq!['\\', '\\']
        } else if s.last() == '"' {
            seq!['\\', '"']
        } else {
            seq![s.last()]
        }
    }
}

/// Escape a value for a quoted wpa_supplicant field.
pub fn wpa_escape(s: &str) -> (r: String)
    ensures
        r@ == wpa_escape_spec(s@),
{
    let c = str_chars(s);
    let mut out: Vec<char> = Vec::new();
    let mut i: usize = 0;
    while i < c.len()
        invariant
            i <= c@.len(),
            out@ == wpa_escape_spec(c@.take(i as int)),
        decreases c@.len() - i,
    {
        let ch = c[i];
        if ch == '\\' || ch == '"' {
            out.push('\\');
        }
        out.push(ch);
        proof {
            assert(c@.take(i + 1).drop_last() =~= c@.take(i as int));
            assert(out@ =~= wpa_escape_spec(c@.take(i + 1)));
        }
        i += 1;
    }
    assert(c@.take(c@.len() as int) =~= c@);
    string_from_chars(out.as_slice())
}

/// The text of a quoted value: characters up to the first unescaped `"`, with each
/// backslash escape replaced by the escaped character; `None` if unterminated.
pub open spec fn unquote(r: Seq<char>) -> Option<Seq<char>>
    decreases r.len(),
{
    if r.len() == 0 {
        None
    } else if r[0] == '\\' {
        if r.len() == 1 {
            None
        } else {
            match unquote(r.skip(2)) {
                Some(o) => Some(seq![r[1]] + o),
                None => None,
            }
        }
    } else if r[0] == '"' {
        Some(Seq::empty())
    } else {
        match unquote(r.drop_first()) {
            Some(o) => Some(seq![r[0]] + o),
            None => None,
        }
    }
}

/// The quoted value after the first `key` in `s` (whitespace after `key` allowed).
pub open spec fn quoted_value(s: Seq<char>, key: Seq<char>) -> Option<Seq<char>> {
    match find_from(s, key, 0) {
        None => None,
        Some(idx) => {
            let rest = trim_start(s.skip(idx + key.len()));
            if rest.len() == 0 || rest[0] != '"' {
                None
            } else {
                unquote(rest.drop_first())
            }
        },
    }
}

/// Unquote the characters of `r` from `i` on (see `unquote`).
fn unquote_chars(r: &[char], start: usize) -> (o: Option<Vec<char>>)
    requires
        start <= r@.len(),
    ensures
        match unquote(r@.skip(start as int)) {
            Some(v) => o matches Some(w) && w@ == v,
            None => o is None,
        },
{
    let mut out: Vec<char> = Vec::new();
    let mut i: usize = start;
    while i < r.len()
        invariant
            start <= i <= r@.len(),
            unquote(r@.skip(start as int)) == match unquote(r@.skip(i as int)) {
                Some(v) => Some(out@ + v),
                None => None::<Seq<char>>,
            },
        decreases r@.len() - i,
    {
        let ch = r[i];
        let ghost tail = r@.skip(i as int);
        assert(tail[0] == ch);
        if ch == '\\' {
            if i + 1 >= r.len() {
                assert(tail.len() == 1);
                return None;
            }
            let next = r[i + 1];
            proof {
                assert(tail.skip(2) =~= r@.skip(i + 2));
                assert(tail[1] == next);
                match unquote(r@.skip(i + 2)) {
                    Some(v) => assert(out@ + (seq![next] + v) =~= out@.push(next) + v),
                    None => {},
                }
            }
            out.push(next);
            i += 2;
        } else if ch == '"' {
            assert(out@ + Seq::<char>::empty() =~= out@);
            return Some(out);
        } else {
            proof {
                assert(tail.drop_first() =~= r@.skip(i + 1));
                match unquote(r@.skip(i + 1)) {
                    Some(v) => assert(out@ + (seq![ch] + v) =~= out@.push(ch) + v),
                    None => {},
                }
            }
            out.push(ch);
            i += 1;
        }
    }
    assert(r@.skip(i as int).len() == 0);
    None
}

/// The quoted value after the first occurrence of `key` in `s`.
pub fn parse_quoted_value(s: &[char], key: &[char]) -> (r: Option<Vec<char>>)
    ensures
        match quoted_value(s@, key@) {
            Some(v) => r matches Some(w) && w@ == v,
            None => r is None,
        },
{
    let idx = match find_chars_from(s, key, 0) {
        Some(i) => i,
        None => return None,
    };
    let n = s.len();
    proof {
        lemma_find_from_bounds(s@, key@, 0);
    }
    let after = vstd::slice::slice_subrange(s, idx + key.len(), s.len());
    assert(after@ =~= s@.skip(idx + key@.len()));
    let a = trim_start_index(after);
    if a >= after.len() || after[a] != '"' {
        return None;
    }
    let rest = vstd::slice::slice_subrange(after, a, after.len());
    assert(rest@ =~= trim_start(after@));
    let r = unquote_chars(rest, 1);
    assert(rest@.skip(1) =~= rest@.drop_first());
    r
}

/// Number of leading ASCII digits.
pub open spec fn digit_prefix_len(s: Seq<char>) -> nat
    decreases s.len(),
{
    if s.len() == 0 || !('0' <= s[0] <= '9') {
        0
    } else {
        1 + digit_prefix_len(s.drop_first())
    }
}

/// The decimal value of a string of ASCII digits.
pub open spec fn decimal_value(s: Seq<char>) -> nat
    decreases s.len(),
{
    if s.len() == 0 {
        0
    } else {
        decimal_value(s.drop_last()) * 10 + (s.last() as nat - '0' as nat) as nat
    }
}

/// The `i32` after the first `key` in `s`: the digits that follow (whitespace
/// allowed before them), `None` if there are none or they overflow `i32`.
pub open spec fn int_value(s: Seq<char>, key: Seq<char>) -> Option<int> {
    match find_from(s, key, 0) {
        None => None,
        Some(idx) => {
            let rest = trim_start(s.skip(idx + key.len()));
            let digits = rest.take(digit_prefix_len(rest) as int);
            if digits.len() == 0 || decimal_value(digits) > i32::MAX {
                None
            } else {
                Some(decimal_value(digits) as int)
            }
        },
    }
}

proof fn lemma_digit_prefix(s: Seq<char>, i: int)
    requires
        0 <= i <= s.len(),
        forall|k: int| 0 <= k < i ==> '0' <= #[trigger] s[k] <= '9',
    ensures
        digit_prefix_len(s) >= i,
        i < s.len() && !('0' <= s[i] <= '9') ==> digit_prefix_len(s) == i,
        i == s.len() ==> digit_prefix_len(s) == i,
    decreases s.len(),
{
    if i > 0 {
        lemma_digit_prefix(s.drop_first(), i - 1);
    } else if s.len() > 0 && '0' <= s[0] <= '9' {
        lemma_digit_prefix(s.drop_first(), 0);
    }
}

/// The integer after the first occurrence of `key` in `s`.
pub fn parse_int_value(s: &[char], key: &[char]) -> (r: Option<i32>)
    ensures
        match int_value(s@, key@) {
            Some(v) => r == Some(v as i32),
            None => r is None,
        },
{
    let idx = match find_chars_from(s, key, 0) {
        Some(i) => i,
        None => return None,
    };
    let n = s.len();
    proof {
        lemma_find_from_bounds(s@, key@, 0);
    }
    let after = vstd::slice::slice_subrange(s, idx + key.len(), s.len());
    assert(after@ =~= s@.skip(idx + key@.len()));
    let a = trim_start_index(after);
    let rest = vstd::slice::slice_subrange(after, a, after.len());
    assert(rest@ =~= trim_start(after@));
    let cap: u64 = 2147483648;
    let mut v: u64 = 0;
    let mut i: usize = 0;
    while i < rest.len() && '0' <= rest[i] && rest[i] <= '9'
        invariant
            i <= rest@.len(),
            v <= cap,
            cap == 2147483648,
            forall|k: int| 0 <= k < i ==> '0' <= #[trigger] rest@[k] <= '9',
            v == if decimal_value(rest@.take(i as int)) < cap {
                decimal_value(rest@.take(i as int))
            } else {
                cap as nat
            },
        decreases rest@.len() - i,
    {
        let c = rest[i];
        let d = (c as u32 - '0' as u32) as u64;
        assert(d <= 9);
        proof {
            assert(rest@.take(i + 1).drop_last() =~= rest@.take(i as int));
            assert(rest@.take(i + 1).last() == rest@[i as int]);
        }
        let next = v * 10 + d;
        v = if next < cap {
            next
        } else {
            cap
        };
        i += 1;
    }
    proof {
        lemma_digit_prefix(rest@, i as int);
    }
    if i == 0 || v >= cap {
        return None;
    }
    Some(v as i32)
}


/// The characters `network={` that open a block.
pub open spec fn network_open() -> Seq<char> {
    seq!['n', 'e', 't', 'w', 'o', 'r', 'k', '=', '{']
}

/// Scanning a block body from `j` with `depth` braces open: the index just past the
/// brace that closes the block, or `None` if the text ends first. Braces inside
/// double quotes do not count; a backslash escapes the next character in quotes.
pub open spec fn block_end(s: Seq<char>, j: int, depth: nat, in_quote: bool, escape: bool) -> Option<int>
    decreases s.len() - j,
{
    if j < 0 || j >= s.len() {
        None
    } else if in_quote {
        if escape {
            block_end(s, j + 1, depth, true, false)
        } else if s[j] == '\\' {
            block_end(s, j + 1, depth, true, true)
        } else if s[j] == '"' {
            block_end(s, j + 1, depth, false, false)
        } else {
            block_end(s, j + 1, depth, true, false)
        }
    } else if s[j] == '"' {
        block_end(s, j + 1, depth, true, false)
    } else if s[j] == '{' {
        block_end(s, j + 1, depth + 1, false, false)
    } else if s[j] == '}' {
        if depth <= 1 {
            Some(j + 1)
        } else {
            block_end(s, j + 1, (depth - 1) as nat, false, false)
        }
    } else {
        block_end(s, j + 1, depth, false, false)
    }
}

/// The end of a block lies after where the scan starts, within the text.
pub proof fn lemma_block_end_bounds(s: Seq<char>, j: int, depth: nat, in_quote: bool, escape: bool)
    ensures
        block_end(s, j, depth, in_quote, escape) matches Some(e) ==> j < e <= s.len(),
    decreases s.len() - j,
{
    if 0 <= j < s.len() {
        if in_quote {
            if escape {
                lemma_block_end_bounds(s, j + 1, depth, true, false);
            } else if s[j] == '\\' {
                lemma_block_end_bounds(s, j + 1, depth, true, true);
            } else if s[j] == '"' {
                lemma_block_end_bounds(s, j + 1, depth, false, false);
            } else {
                lemma_block_end_bounds(s, j + 1, depth, true, false);
            }
        } else if s[j] == '"' {
            lemma_block_end_bounds(s, j + 1, depth, true, false);
        } else if s[j] == '{' {
            lemma_block_end_bounds(s, j + 1, depth + 1, false, false);
        } else if s[j] == '}' {
            if depth > 1 {
                lemma_block_end_bounds(s, j + 1, (depth - 1) as nat, false, false);
            }
        } else {
            lemma_block_end_bounds(s, j + 1, depth, false, false);
        }
    }
}

/// The text of `s` from `i` on outside complete `network={...}` blocks, and the blocks
/// in order. An unterminated block is left in the text.
pub open spec fn network_blocks_from(s: Seq<char>, i: int) -> (Seq<char>, Seq<Seq<char>>)
    decreases s.len() - i,
{
    if i < 0 || i >= s.len() {
        (Seq::empty(), Seq::empty())
    } else {
        match find_from(s, network_open(), i) {
            None => (s.subrange(i, s.len() as int), Seq::empty()),
            Some(start) => {
                proof {
                    lemma_find_from_bounds(s, network_open(), i);
                }
                match block_end(s, start + 9, 1, false, false) {
                    None => (s.subrange(i, s.len() as int), Seq::empty()),
                    Some(j) => {
                        proof {
                            lemma_block_end_bounds(s, start + 9, 1, false, false);
                        }
                        let (p, bs) = network_blocks_from(s, j);
                        (s.subrange(i, start) + p, seq![s.subrange(start, j)] + bs)
                    },
                }
            },
        }
    }
}

/// Find the end of a block whose body starts at `j0` (see `block_end`).
fn scan_block_end(s: &[char], j0: usize) -> (r: Option<usize>)
    requires
        1 <= j0 <= s@.len(),
    ensures
        match block_end(s@, j0 as int, 1, false, false) {
            Some(e) => r == Some(e as usize),
            None => r is None,
        },
{
    proof {
        lemma_block_end_bounds(s@, j0 as int, 1, false, false);
    }
    let mut j = j0;
    let mut depth: usize = 1;
    let mut in_quote = false;
    let mut escape = false;
    while j < s.len()
        invariant
            j0 <= j <= s@.len(),
            1 <= j0,
            1 <= depth <= j - j0 + 1,
            !in_quote ==> !escape,
            block_end(s@, j0 as int, 1, false, false) == block_end(
                s@,
                j as int,
                depth as nat,
                in_quote,
                escape,
            ),
        decreases s@.len() - j,
    {
        let b = s[j];
        if in_quote {
            if escape {
                escape = false;
            } else if b == '\\' {
                escape = true;
            } else if b == '"' {
                in_quote = false;
            }
            j += 1;
            continue;
        }
        if b == '"' {
            in_quote = true;
            j += 1;
            continue;
        }
        if b == '{' {
            depth += 1;
        } else if b == '}' {
            if depth <= 1 {
                return Some(j + 1);
            }
            depth -= 1;
        }
        escape = false;
        j += 1;
    }
    None
}

/// Split wpa_supplicant configuration text into the text outside `network={...}` blocks
/// and the blocks themselves, in order.
pub fn split_wpa_network_blocks(contents: &str) -> (r: (String, Vec<String>))
    ensures
        r.0@ == network_blocks_from(contents@, 0).0,
        r.1@.map_values(|b: String| b@) == network_blocks_from(contents@, 0).1,
{
    let s = str_chars(contents);
    let needle = vec!['n', 'e', 't', 'w', 'o', 'r', 'k', '=', '{'];
    assert(needle@ =~= network_open());
    let n = s.len();
    let mut prefix: Vec<char> = Vec::new();
    let mut blocks: Vec<String> = Vec::new();
    let mut i: usize = 0;
    let ghost whole = network_blocks_from(s@, 0);
    while i < n
        invariant
            n == s@.len(),
            s@ == contents@,
            needle@ == network_open(),
            i <= n,
            whole == network_blocks_from(s@, 0),
            whole.0 == prefix@ + network_blocks_from(s@, i as int).0,
            whole.1 == blocks@.map_values(|b: String| b@) + network_blocks_from(s@, i as int).1,
        decreases n - i,
    {
        let found = find_chars_from(s.as_slice(), needle.as_slice(), i);
        proof {
            lemma_find_from_bounds(s@, network_open(), i as int);
        }
        let start = match found {
            Some(p) => p,
            None => {
                let ghost old_prefix = prefix@;
                let tail = vstd::slice::slice_subrange(s.as_slice(), i, n);
                let mut tail_vec = vstd::slice::slice_to_vec(tail);
                prefix.append(&mut tail_vec);
                assert(network_blocks_from(s@, i as int) == (s@.subrange(i as int, n as int), Seq::<Seq<char>>::empty()));
                assert(prefix@ =~= old_prefix + s@.subrange(i as int, n as int));
                assert(blocks@.map_values(|b: String| b@) + Seq::<Seq<char>>::empty() =~= blocks@.map_values(|b: String| b@));
                return (string_from_chars(prefix.as_slice()), blocks);
            },
        };
        let end = scan_block_end(s.as_slice(), start + 9);
        match end {
            None => {
                let ghost old_prefix = prefix@;
                let tail = vstd::slice::slice_subrange(s.as_slice(), i, n);
                let mut tail_vec = vstd::slice::slice_to_vec(tail);
                prefix.append(&mut tail_vec);
                assert(network_blocks_from(s@, i as int) == (s@.subrange(i as int, n as int), Seq::<Seq<char>>::empty()));
                assert(prefix@ =~= old_prefix + s@.subrange(i as int, n as int));
                assert(blocks@.map_values(|b: String| b@) + Seq::<Seq<char>>::empty() =~= blocks@.map_values(|b: String| b@));
                return (string_from_chars(prefix.as_slice()), blocks);
            },
            Some(j) => {
                proof {
                    lemma_block_end_bounds(s@, start + 9, 1, false, false);
                }
                let ghost old_prefix = prefix@;
                let ghost old_blocks = blocks@.map_values(|b: String| b@);
                let head = vstd::slice::slice_subrange(s.as_slice(), i, start);
                let mut head_vec = vstd::slice::slice_to_vec(head);
                prefix.append(&mut head_vec);
                let block = vstd::slice::slice_subrange(s.as_slice(), start, j);
                blocks.push(string_from_chars(block));
                proof {
                    let (p, bs) = network_blocks_from(s@, j as int);
                    assert(network_blocks_from(s@, i as int) == (
                        s@.subrange(i as int, start as int) + p,
                        seq![s@.subrange(start as int, j as int)] + bs,
                    ));
                    assert(prefix@ == old_prefix + s@.subrange(i as int, start as int));
                    assert(whole.0 =~= prefix@ + p);
                    assert(blocks@.map_values(|b: String| b@) =~= old_blocks.push(
                        s@.subrange(start as int, j as int),
                    ));
                    assert(whole.1 =~= blocks@.map_values(|b: String| b@) + bs);
                }
                i = j;
            },
        }
    }
    assert(network_blocks_from(s@, i as int) == (Seq::<char>::empty(), Seq::<Seq<char>>::empty()));
    assert(prefix@ + Seq::<char>::empty() =~= prefix@);
    assert(blocks@.map_values(|b: String| b@) + Seq::<Seq<char>>::empty() =~= blocks@.map_values(|b: String| b@));
    (string_from_chars(prefix.as_slice()), blocks)
}


/// `s` starts with `p`.
pub open spec fn has_prefix(s: Seq<char>, p: Seq<char>) -> bool {
    p.len() <= s.len() && s.take(p.len() as int) == p
}

/// An `iface` stanza header line (already trimmed).
pub open spec fn is_iface_line(line: Seq<char>) -> bool {
    has_prefix(line, "iface "@) && !has_prefix(line, "#"@)
}

/// One line of `/etc/network/interfaces` applied to the scan state (inside the stanza
/// of `iface`, still ok).
pub open spec fn iface_step(state: (bool, bool), raw_line: Seq<char>, iface: Seq<char>) -> (bool, bool) {
    let line = trim(raw_line);
    let found0 = if state.0 && is_iface_line(line) {
        false
    } else {
        state.0
    };
    let found1 = if is_iface_line(line) && words(line).len() >= 2 && words(line)[1] == iface {
        true
    } else {
        found0
    };
    let ok = if found1 && contains_seq(line, "nohook wpa_supplicant"@) && !has_prefix(line, "#"@) {
        false
    } else {
        state.1
    };
    (found1, ok)
}

/// The scan state after the first `n` lines.
pub open spec fn iface_scan(ls: Seq<Seq<char>>, iface: Seq<char>) -> (bool, bool)
    decreases ls.len(),
{
    if ls.len() == 0 {
        (false, true)
    } else {
        iface_step(iface_scan(ls.drop_last(), iface), ls.last(), iface)
    }
}

/// `iface` may be driven by wpa_supplicant: its stanza in `/etc/network/interfaces`
/// carries no `nohook wpa_supplicant`.
pub open spec fn interface_ok_spec(data: Seq<char>, iface: Seq<char>) -> bool {
    iface_scan(lines(data), iface).1
}

/// The second whitespace-separated word of `line`, if any.
fn second_word(line: &[char]) -> (r: Option<Vec<char>>)
    ensures
        words(line@).len() >= 2 ==> (r matches Some(w) && w@ == words(line@)[1]),
        words(line@).len() < 2 ==> r is None,
{
    let a = trim_start_index(line);
    let t = vstd::slice::slice_subrange(line, a, line.len());
    assert(t@ =~= trim_start(line@));
    proof {
        lemma_trim_start_len(line@);
    }
    if t.len() == 0 {
        return None;
    }
    let mut k: usize = 0;
    while k < t.len() && !crate::text::is_whitespace(t[k])
        invariant
            k <= t@.len(),
            forall|q: int| 0 <= q < k ==> !crate::text::is_white_space(#[trigger] t@[q]),
        decreases t@.len() - k,
    {
        k += 1;
    }
    proof {
        lemma_word_len_prefix(t@, k as int);
    }
    let rest = vstd::slice::slice_subrange(t, k, t.len());
    assert(rest@ =~= t@.skip(word_len(t@) as int));
    let b = trim_start_index(rest);
    let u = vstd::slice::slice_subrange(rest, b, rest.len());
    assert(u@ =~= trim_start(rest@));
    proof {
        lemma_trim_start_len(rest@);
        lemma_trim_start_len(t@);
        lemma_word_len_bounds(t@);
        assert(words(line@) == seq![t@.take(word_len(t@) as int)] + words(rest@));
    }
    if u.len() == 0 {
        return None;
    }
    let mut m: usize = 0;
    while m < u.len() && !crate::text::is_whitespace(u[m])
        invariant
            m <= u@.len(),
            forall|q: int| 0 <= q < m ==> !crate::text::is_white_space(#[trigger] u@[q]),
        decreases u@.len() - m,
    {
        m += 1;
    }
    proof {
        lemma_word_len_prefix(u@, m as int);
        lemma_word_len_bounds(u@);
        assert(words(rest@)[0] == u@.take(word_len(u@) as int));
    }
    let w = vstd::slice::slice_to_vec(vstd::slice::slice_subrange(u, 0, m));
    assert(w@ =~= u@.take(m as int));
    Some(w)
}

proof fn lemma_word_len_prefix(t: Seq<char>, k: int)
    requires
        0 <= k <= t.len(),
        forall|q: int| 0 <= q < k ==> !crate::text::is_white_space(#[trigger] t[q]),
        k == t.len() || crate::text::is_white_space(t[k]),
    ensures
        word_len(t) == k,
    decreases k,
{
    if k > 0 {
        assert forall|q: int| 0 <= q < k - 1 implies !crate::text::is_white_space(
            #[trigger] t.drop_first()[q],
        ) by {
            assert(t.drop_first()[q] == t[q + 1]);
        }
        if k < t.len() {
            assert(t.drop_first()[k - 1] == t[k]);
        }
        lemma_word_len_prefix(t.drop_first(), k - 1);
    }
}

/// Whether `iface` may be driven by wpa_supplicant according to the contents of
/// `/etc/network/interfaces`.
pub fn interface_ok(data: &str, iface: &str) -> (r: bool)
    ensures
        r == interface_ok_spec(data@, iface@),
{
    let text = str_chars(data);
    let name = str_chars(iface);
    let ls = lines_chars(text.as_slice());
    let iface_kw = vec!['i', 'f', 'a', 'c', 'e', ' '];
    let hash = vec!['#'];
    let nohook = str_chars("nohook wpa_supplicant");
    proof {
        reveal_strlit("iface ");
        reveal_strlit("#");
        reveal_strlit("nohook wpa_supplicant");
    }
    assert(iface_kw@ =~= "iface "@);
    assert(hash@ =~= "#"@);
    let mut found = false;
    let mut ok = true;
    let mut i: usize = 0;
    while i < ls.len()
        invariant
            i <= ls@.len(),
            char_views(ls@) == lines(text@),
            text@ == data@,
            name@ == iface@,
            iface_kw@ == "iface "@,
            hash@ == "#"@,
            nohook@ == "nohook wpa_supplicant"@,
            (found, ok) == iface_scan(char_views(ls@).take(i as int), iface@),
        decreases ls@.len() - i,
    {
        let line = trim_chars(ls[i].as_slice());
        let is_iface = starts_with_chars(line.as_slice(), iface_kw.as_slice()) && !starts_with_chars(
            line.as_slice(),
            hash.as_slice(),
        );
        if found && is_iface {
            found = false;
        }
        if is_iface {
            match second_word(line.as_slice()) {
                Some(w) => {
                    if chars_eq(w.as_slice(), name.as_slice()) {
                        found = true;
                    }
                },
                None => {},
            }
        }
        if found && contains_chars(line.as_slice(), nohook.as_slice()) && !starts_with_chars(
            line.as_slice(),
            hash.as_slice(),
        ) {
            ok = false;
        }
        proof {
            let prev = char_views(ls@).take(i as int);
            let next = char_views(ls@).take(i + 1);
            assert(next.drop_last() =~= prev);
            assert(next.last() == ls@[i as int]@);
        }
        i += 1;
    }
    assert(char_views(ls@).take(i as int) =~= char_views(ls@));
    ok
}

/// `nmcli dev status` text reports `iface` as handled by NetworkManager: the first line
/// that mentions it says `connected` or `disconnected`.
pub open spec fn nm_manages_spec(status: Seq<char>, iface: Seq<char>) -> bool {
    nm_scan(lines(status), iface, 0)
}

/// The NetworkManager verdict from line `i` on.
pub open spec fn nm_scan(ls: Seq<Seq<char>>, iface: Seq<char>, i: int) -> bool
    decreases ls.len() - i,
{
    if i < 0 || i >= ls.len() {
        false
    } else if !contains_seq(ls[i], iface) {
        nm_scan(ls, iface, i + 1)
    } else {
        contains_seq(ls[i], "connected"@) || contains_seq(ls[i], "disconnected"@)
    }
}

/// Decide from `nmcli dev status` text whether NetworkManager manages `iface`.
pub fn nm_manages(status: &str, iface: &str) -> (r: bool)
    ensures
        r == nm_manages_spec(status@, iface@),
{
    let text = str_chars(status);
    let name = str_chars(iface);
    let connected = str_chars("connected");
    let disconnected = str_chars("disconnected");
    let ls = lines_chars(text.as_slice());
    let mut i: usize = 0;
    while i < ls.len()
        invariant
            i <= ls@.len(),
            char_views(ls@) == lines(status@),
            name@ == iface@,
            connected@ == "connected"@,
            disconnected@ == "disconnected"@,
            nm_manages_spec(status@, iface@) == nm_scan(char_views(ls@), iface@, i as int),
        decreases ls@.len() - i,
    {
        let line = ls[i].as_slice();
        assert(line@ == char_views(ls@)[i as int]);
        if contains_chars(line, name.as_slice()) {
            return contains_chars(line, connected.as_slice()) || contains_chars(
                line,
                disconnected.as_slice(),
            );
        }
        i += 1;
    }
    false
}

/// Decide from the raw stdout of `nmcli dev status` whether NetworkManager manages
/// `iface` (the output is decoded lossily and trimmed first).
pub fn nm_manages_output(stdout: &[u8], iface: &str) -> (r: bool)
    ensures
        r == nm_manages_spec(trim(utf8_lossy_text(stdout@)), iface@),
{
    let text = utf8_lossy(stdout);
    let chars = str_chars(text.as_str());
    let t = trim_chars(chars.as_slice());
    let s = string_from_chars(t.as_slice());
    nm_manages(s.as_str(), iface)
}


/// `s` with every leading repetition of the non-empty `p` removed (`trim_start_matches`).
pub open spec fn strip_prefixes(s: Seq<char>, p: Seq<char>) -> Seq<char>
    decreases s.len(),
{
    if p.len() > 0 && has_prefix(s, p) {
        strip_prefixes(s.skip(p.len() as int), p)
    } else {
        s
    }
}

/// The `psk=` line taken from `wpa_passphrase` output lines, from line `i` on: the first
/// trimmed line starting with `psk=` whose value (after the `psk=` prefixes, trimmed) is
/// not empty.
pub open spec fn psk_from_lines(ls: Seq<Seq<char>>, i: int) -> Option<Seq<char>>
    decreases ls.len() - i,
{
    if i < 0 || i >= ls.len() {
        None
    } else {
        let line = trim(ls[i]);
        if has_prefix(line, "psk="@) && !has_prefix(line, "#"@) && trim(
            strip_prefixes(line, "psk="@),
        ).len() > 0 {
            Some("psk="@ + trim(strip_prefixes(line, "psk="@)))
        } else {
            psk_from_lines(ls, i + 1)
        }
    }
}

/// The psk line written for a network: the hashed key from `wpa_passphrase` output when
/// there is one, else the quoted, escaped password.
pub open spec fn psk_line_spec(passphrase_output: Option<Seq<char>>, password: Seq<char>) -> Seq<char> {
    let fallback = "psk=\""@ + wpa_escape_spec(password) + "\""@;
    match passphrase_output {
        Some(text) => match psk_from_lines(lines(text), 0) {
            Some(l) => l,
            None => fallback,
        },
        None => fallback,
    }
}

/// Strip leading repetitions of `p` from `s`.
fn strip_prefixes_chars(s: &[char], p: &[char]) -> (r: Vec<char>)
    requires
        p@.len() > 0,
    ensures
        r@ == strip_prefixes(s@, p@),
{
    let n = s.len();
    let mut i: usize = 0;
    assert(s@.skip(0) =~= s@);
    while p.len() <= n - i && starts_with_chars(vstd::slice::slice_subrange(s, i, n), p)
        invariant
            n == s@.len(),
            p@.len() > 0,
            i <= n,
            strip_prefixes(s@, p@) == strip_prefixes(s@.skip(i as int), p@),
        decreases n - i,
    {
        proof {
            assert(s@.skip(i as int).skip(p@.len() as int) =~= s@.skip(i + p@.len()));
        }
        i += p.len();
    }
    let r = vstd::slice::slice_to_vec(vstd::slice::slice_subrange(s, i, n));
    assert(r@ =~= s@.skip(i as int));
    r
}

/// The psk line for `password` given the text printed by `wpa_passphrase`, if it ran.
pub fn psk_line(passphrase_output: Option<&str>, password: &str) -> (r: String)
    ensures
        r@ == psk_line_spec(
            match passphrase_output {
                Some(t) => Some(t@),
                None => None,
            },
            password@,
        ),
{
    proof {
        reveal_strlit("psk=");
        reveal_strlit("#");
        reveal_strlit("psk=\"");
        reveal_strlit("\"");
    }
    match passphrase_output {
        Some(text) => {
            let chars = str_chars(text);
            let ls = lines_chars(chars.as_slice());
            let key = vec!['p', 's', 'k', '='];
            let hash = vec!['#'];
            assert(key@ =~= "psk="@);
            assert(hash@ =~= "#"@);
            let mut i: usize = 0;
            while i < ls.len()
                invariant
                    i <= ls@.len(),
                    passphrase_output == Some(text),
                    key@ == seq!['p', 's', 'k', '='],
                    char_views(ls@) == lines(text@),
                    key@ == "psk="@,
                    hash@ == "#"@,
                    psk_from_lines(lines(text@), 0) == psk_from_lines(lines(text@), i as int),
                decreases ls@.len() - i,
            {
                proof {
                    reveal_strlit("psk=");
                    reveal_strlit("#");
                }
                let line = trim_chars(ls[i].as_slice());
                assert(ls@[i as int]@ == lines(text@)[i as int]);
                if starts_with_chars(line.as_slice(), key.as_slice()) && !starts_with_chars(
                    line.as_slice(),
                    hash.as_slice(),
                ) {
                    let stripped = strip_prefixes_chars(line.as_slice(), key.as_slice());
                    let psk = trim_chars(stripped.as_slice());
                    if psk.len() > 0 {
                        let mut out = vec!['p', 's', 'k', '='];
                        let ghost psk_view = psk@;
                        let mut tail = psk;
                        out.append(&mut tail);
                        proof {
                            reveal_strlit("psk=");
                            assert(out@ =~= "psk="@ + psk_view);
                            assert(line@ == trim(lines(text@)[i as int]));
                            assert(has_prefix(line@, "psk="@));
                            assert(!has_prefix(line@, "#"@));
                            assert(psk_view == trim(strip_prefixes(line@, "psk="@)));
                            assert(psk_from_lines(lines(text@), i as int) == Some("psk="@ + psk_view));
                        }
                        return string_from_chars(out.as_slice());
                    }
                }
                i += 1;
            }
        },
        None => {},
    }
    let escaped = wpa_escape(password);
    String::from_str("psk=\"").concat(escaped.as_str()).concat("\"")
}

/// The blocks kept when writing a network for `ssid`: those whose quoted `ssid=` is
/// not `ssid`.
pub open spec fn kept_blocks(blocks: Seq<Seq<char>>, ssid: Seq<char>) -> Seq<Seq<char>>
    decreases blocks.len(),
{
    if blocks.len() == 0 {
        Seq::empty()
    } else if quoted_value(blocks.last(), "ssid="@) == Some(ssid) {
        kept_blocks(blocks.drop_last(), ssid)
    } else {
        kept_blocks(blocks.drop_last(), ssid).push(blocks.last())
    }
}

/// The highest `priority=` among the blocks, at least 0.
pub open spec fn max_priority(blocks: Seq<Seq<char>>) -> int
    decreases blocks.len(),
{
    if blocks.len() == 0 {
        0
    } else {
        let m = max_priority(blocks.drop_last());
        match int_value(blocks.last(), "priority="@) {
            Some(p) => if p > m {
                p
            } else {
                m
            },
            None => m,
        }
    }
}

/// The block written for the new network.
pub open spec fn network_block(ssid: Seq<char>, psk_line: Seq<char>, priority: nat) -> Seq<char> {
    "network={\n\t\tssid=\""@ + wpa_escape_spec(ssid) + "\"\n\t\tscan_ssid=1\n\t\t"@ + psk_line
        + "\n\t\tpriority="@ + decimal(priority) + "\n\t}"@
}

/// The configuration written for `ssid`: the text outside blocks (`Country=` fixed to
/// `country=`, trailing whitespace dropped when `trim_prefix`), then the kept blocks and
/// the new one, each after a newline and a tab.
pub open spec fn wpa_conf_spec(
    current: Seq<char>,
    ssid: Seq<char>,
    psk_line: Seq<char>,
    trim_prefix: bool,
) -> Seq<char> {
    let (prefix, blocks) = network_blocks_from(current, 0);
    let head = replace_all(prefix, "Country="@, "country="@);
    let head2 = if trim_prefix {
        trim_end(head)
    } else {
        head
    };
    let block = network_block(ssid, psk_line, (max_priority(blocks) + 1) as nat);
    head2 + "\n\t"@ + join_with(kept_blocks(blocks, ssid).push(block), "\n\t"@)
}

proof fn lemma_max_priority_bounds(blocks: Seq<Seq<char>>)
    ensures
        0 <= max_priority(blocks) <= i32::MAX,
    decreases blocks.len(),
{
    if blocks.len() > 0 {
        lemma_max_priority_bounds(blocks.drop_last());
    }
}

/// Rewrite wpa_supplicant configuration text with a network block for `ssid`
/// (replacing blocks for the same SSID, priority one above the highest).
pub fn render_wpa_conf(current: &str, ssid: &str, psk_line: &str, trim_prefix: bool) -> (r: String)
    requires
        max_priority(network_blocks_from(current@, 0).1) < i32::MAX,
    ensures
        r@ == wpa_conf_spec(current@, ssid@, psk_line@, trim_prefix),
{
    proof {
        reveal_strlit("ssid=");
        reveal_strlit("priority=");
        reveal_strlit("Country=");
        reveal_strlit("country=");
        reveal_strlit("\n\t");
    }
    let (prefix, blocks) = split_wpa_network_blocks(current);
    let ghost bviews = blocks@.map_values(|b: String| b@);
    let ssid_chars = str_chars(ssid);
    let ssid_key = vec!['s', 's', 'i', 'd', '='];
    let prio_key = vec!['p', 'r', 'i', 'o', 'r', 'i', 't', 'y', '='];
    assert(ssid_key@ =~= "ssid="@);
    assert(prio_key@ =~= "priority="@);
    let mut kept: Vec<Vec<char>> = Vec::new();
    let mut max_p: i32 = 0;
    let mut i: usize = 0;
    while i < blocks.len()
        invariant
            i <= blocks@.len(),
            bviews == blocks@.map_values(|b: String| b@),
            ssid_chars@ == ssid@,
            ssid_key@ == "ssid="@,
            prio_key@ == "priority="@,
            char_views(kept@) == kept_blocks(bviews.take(i as int), ssid@),
            max_p == max_priority(bviews.take(i as int)),
        decreases blocks@.len() - i,
    {
        let b = str_chars(blocks[i].as_str());
        let b_ssid = parse_quoted_value(b.as_slice(), ssid_key.as_slice());
        let b_prio = parse_int_value(b.as_slice(), prio_key.as_slice());
        proof {
            let prev = bviews.take(i as int);
            let next = bviews.take(i + 1);
            assert(next.drop_last() =~= prev);
            assert(next.last() == b@);
        }
        match b_prio {
            Some(p) => {
                if p > max_p {
                    max_p = p;
                }
            },
            None => {},
        }
        let same = match &b_ssid {
            Some(v) => chars_eq(v.as_slice(), ssid_chars.as_slice()),
            None => false,
        };
        if !same {
            let ghost old_kept = char_views(kept@);
            kept.push(b);
            assert(char_views(kept@) =~= old_kept.push(bviews[i as int]));
        }
        i += 1;
    }
    assert(bviews.take(i as int) =~= bviews);
    proof {
        lemma_max_priority_bounds(bviews);
    }
    let escaped = wpa_escape(ssid);
    let digits = decimal_chars((max_p + 1) as u64);
    let digits_s = string_from_chars(digits.as_slice());
    let block = String::from_str("network={\n\t\tssid=\"").concat(escaped.as_str()).concat(
        "\"\n\t\tscan_ssid=1\n\t\t",
    ).concat(psk_line).concat("\n\t\tpriority=").concat(digits_s.as_str()).concat("\n\t}");
    let block_chars = str_chars(block.as_str());
    let ghost old_kept = char_views(kept@);
    kept.push(block_chars);
    assert(char_views(kept@) =~= old_kept.push(network_block(ssid@, psk_line@, (max_p + 1) as nat)));
    let prefix_chars = str_chars(prefix.as_str());
    let from = vec!['C', 'o', 'u', 'n', 't', 'r', 'y', '='];
    let to = vec!['c', 'o', 'u', 'n', 't', 'r', 'y', '='];
    assert(from@ =~= "Country="@);
    assert(to@ =~= "country="@);
    let head = replace_chars(prefix_chars.as_slice(), from.as_slice(), to.as_slice());
    let head2 = if trim_prefix {
        let e = trim_end_index(head.as_slice());
        let v = vstd::slice::slice_to_vec(vstd::slice::slice_subrange(head.as_slice(), 0, e));
        assert(v@ =~= trim_end(head@));
        v
    } else {
        head
    };
    let sep = vec!['\n', '\t'];
    assert(sep@ =~= "\n\t"@);
    let body = join_chars(kept.as_slice(), sep.as_slice());
    let mut out = head2;
    let mut sep2 = vec!['\n', '\t'];
    out.append(&mut sep2);
    let mut body_mut = body;
    out.append(&mut body_mut);
    assert(out@ =~= wpa_conf_spec(current@, ssid@, psk_line@, trim_prefix));
    string_from_chars(out.as_slice())
}


/// The metadata of a network block: its quoted `ssid=` and its `priority=`.
pub fn parse_wpa_network_block_meta(block: &str) -> (r: (Option<String>, Option<i32>))
    ensures
        match quoted_value(block@, "ssid="@) {
            Some(v) => r.0 matches Some(w) && w@ == v,
            None => r.0 is None,
        },
        match int_value(block@, "priority="@) {
            Some(v) => r.1 == Some(v as i32),
            None => r.1 is None,
        },
{
    proof {
        reveal_strlit("ssid=");
        reveal_strlit("priority=");
    }
    let b = str_chars(block);
    let ssid_key = vec!['s', 's', 'i', 'd', '='];
    let prio_key = vec!['p', 'r', 'i', 'o', 'r', 'i', 't', 'y', '='];
    assert(ssid_key@ =~= "ssid="@);
    assert(prio_key@ =~= "priority="@);
    let ssid = match parse_quoted_value(b.as_slice(), ssid_key.as_slice()) {
        Some(v) => Some(string_from_chars(v.as_slice())),
        None => None,
    };
    let prio = parse_int_value(b.as_slice(), prio_key.as_slice());
    (ssid, prio)
}

/// The highest `priority=` among the network blocks of a configuration (at least 0).
pub fn wpa_conf_max_priority(current: &str) -> (r: i32)
    ensures
        r == max_priority(network_blocks_from(current@, 0).1),
{
    let (_prefix, blocks) = split_wpa_network_blocks(current);
    let ghost bviews = blocks@.map_values(|b: String| b@);
    let mut max_p: i32 = 0;
    let mut i: usize = 0;
    while i < blocks.len()
        invariant
            i <= blocks@.len(),
            bviews == blocks@.map_values(|b: String| b@),
            max_p == max_priority(bviews.take(i as int)),
        decreases blocks@.len() - i,
    {
        let (_s, p) = parse_wpa_network_block_meta(blocks[i].as_str());
        proof {
            assert(bviews.take(i + 1).drop_last() =~= bviews.take(i as int));
            assert(bviews.take(i + 1).last() == blocks@[i as int]@);
        }
        match p {
            Some(v) => {
                if v > max_p {
                    max_p = v;
                }
            },
            None => {},
        }
        i += 1;
    }
    assert(bviews.take(i as int) =~= bviews);
    max_p
}

/// The configuration to write for `ssid`: the psk line from the `wpa_passphrase` output
/// (decoded lossily; `None` when it did not run successfully), then the rewritten text.
pub fn updated_wpa_conf(
    current: &str,
    ssid: &str,
    password: &str,
    passphrase_stdout: Option<&[u8]>,
    trim_prefix: bool,
) -> (r: String)
    requires
        max_priority(network_blocks_from(current@, 0).1) < i32::MAX,
    ensures
        r@ == wpa_conf_spec(
            current@,
            ssid@,
            psk_line_spec(
                match passphrase_stdout {
                    Some(out) => Some(utf8_lossy_text(out@)),
                    None => None,
                },
                password@,
            ),
            trim_prefix,
        ),
{
    let line = match passphrase_stdout {
        Some(out) => {
            let text = utf8_lossy(out);
            psk_line(Some(text.as_str()), password)
        },
        None => psk_line(None, password),
    };
    render_wpa_conf(current, ssid, line.as_str(), trim_prefix)
}

/// The Wi-Fi interface among the network interfaces listed (name, has a `wireless`
/// directory), in directory order: the first that is not `lo` and is wireless.
pub open spec fn wifi_interface_choice(entries: Seq<(Seq<char>, bool)>) -> Seq<char>
    decreases entries.len(),
{
    if entries.len() == 0 {
        DEFAULT_WIFI_INTERFACE@
    } else if entries[0].0 != "lo"@ && entries[0].1 {
        entries[0].0
    } else {
        wifi_interface_choice(entries.drop_first())
    }
}

/// Pick the Wi-Fi interface from the network interfaces (name, has a `wireless`
/// directory), in directory order; `wlan0` when none qualifies.
pub fn choose_wifi_interface(entries: &[(String, bool)]) -> (r: String)
    ensures
        r@ == wifi_interface_choice(entries@.map_values(|e: (String, bool)| (e.0@, e.1))),
{
    proof {
        reveal_strlit("lo");
    }
    let ghost ev = entries@.map_values(|e: (String, bool)| (e.0@, e.1));
    let lo = vec!['l', 'o'];
    assert(lo@ =~= "lo"@);
    assert(ev.skip(0) =~= ev);
    let mut i: usize = 0;
    while i < entries.len()
        invariant
            i <= entries@.len(),
            ev == entries@.map_values(|e: (String, bool)| (e.0@, e.1)),
            lo@ == "lo"@,
            wifi_interface_choice(ev) == wifi_interface_choice(ev.skip(i as int)),
        decreases entries@.len() - i,
    {
        let name = str_chars(entries[i].0.as_str());
        proof {
            assert(ev.skip(i as int)[0] == ev[i as int]);
            assert(ev.skip(i as int).drop_first() =~= ev.skip(i + 1));
        }
        if entries[i].1 && !chars_eq(name.as_slice(), lo.as_slice()) {
            return entries[i].0.clone();
        }
        i += 1;
    }
    String::from_str(DEFAULT_WIFI_INTERFACE)
}

/// The name of the temporary file written next to `file_name` before it is renamed over
/// it: `.{file_name}.tmp.{pid}`.
pub fn temp_file_name(file_name: &str, pid: u32) -> (r: String)
    ensures
        r@ == "."@ + file_name@ + ".tmp."@ + decimal(pid as nat),
{
    let d = decimal_chars(pid as u64);
    String::from_str(".").concat(file_name).concat(".tmp.").concat(string_from_chars(d.as_slice()).as_str())
}


/// The escape of one character.
pub open spec fn escape_char(c: char) -> Seq<char> {
    if c == '\\' {
        seq!['\\', '\\']
    } else if c == '"' {
        seq!['\\', '"']
    } else {
        seq![c]
    }
}

proof fn lemma_escape_front(c: char, s: Seq<char>)
    ensures
        wpa_escape_spec(seq![c] + s) == escape_char(c) + wpa_escape_spec(s),
    decreases s.len(),
{
    if s.len() == 0 {
        assert(seq![c] + s =~= seq![c]);
        assert(seq![c].drop_last() =~= Seq::<char>::empty());
        assert(seq![c].last() == c);
        assert(wpa_escape_spec(Seq::<char>::empty()) =~= Seq::<char>::empty());
        assert(wpa_escape_spec(seq![c]) =~= escape_char(c));
        assert(escape_char(c) + wpa_escape_spec(s) =~= escape_char(c));
    } else {
        lemma_escape_front(c, s.drop_last());
        assert((seq![c] + s).drop_last() =~= seq![c] + s.drop_last());
        assert((seq![c] + s).last() == s.last());
        let tail = if s.last() == '\\' {
            seq!['\\', '\\']
        } else if s.last() == '"' {
            seq!['\\', '"']
        } else {
            seq![s.last()]
        };
        assert(wpa_escape_spec(s) == wpa_escape_spec(s.drop_last()) + tail);
        assert(wpa_escape_spec(seq![c] + s) == wpa_escape_spec(seq![c] + s.drop_last()) + tail);
        assert(escape_char(c) + wpa_escape_spec(s.drop_last()) + tail =~= escape_char(c) + (
        wpa_escape_spec(s.drop_last()) + tail));
    }
}

/// An escaped value followed by a closing quote unquotes back to the value.
proof fn lemma_unquote_escape(s: Seq<char>, tail: Seq<char>)
    ensures
        unquote(wpa_escape_spec(s) + seq!['"'] + tail) == Some(s),
    decreases s.len(),
{
    if s.len() == 0 {
        assert(wpa_escape_spec(s) + seq!['"'] + tail =~= seq!['"'] + tail);
    } else {
        let c = s[0];
        let rest = s.drop_first();
        assert(s =~= seq![c] + rest);
        lemma_escape_front(c, rest);
        lemma_unquote_escape(rest, tail);
        let r = wpa_escape_spec(s) + seq!['"'] + tail;
        let inner = wpa_escape_spec(rest) + seq!['"'] + tail;
        assert(r =~= escape_char(c) + inner);
        if c == '\\' || c == '"' {
            assert(r.skip(2) =~= inner);
            assert(r[1] == c);
        } else {
            assert(r.drop_first() =~= inner);
        }
        assert(seq![c] + rest =~= s);
    }
}

proof fn lemma_find_first_at(hay: Seq<char>, needle: Seq<char>, start: int, p: int)
    requires
        0 <= start <= p,
        occurs_at(hay, needle, p),
        forall|q: int| start <= q < p ==> !occurs_at(hay, needle, q),
    ensures
        find_from(hay, needle, start) == Some(p),
    decreases p - start,
{
    if start < p {
        lemma_find_first_at(hay, needle, start + 1, p);
    }
}

/// The network block written for an SSID reads back as that SSID: its quoted `ssid=`
/// value is the SSID, whatever quotes and backslashes it holds.
pub proof fn law_network_block_ssid(ssid: Seq<char>, psk_line: Seq<char>, priority: nat)
    ensures
        quoted_value(network_block(ssid, psk_line, priority), "ssid="@) == Some(ssid),
{
    reveal_strlit("network={\n\t\tssid=\"");
    reveal_strlit("ssid=");
    let head = "network={\n\t\tssid=\""@;
    let tail = "\"\n\t\tscan_ssid=1\n\t\t"@ + psk_line + "\n\t\tpriority="@ + decimal(priority)
        + "\n\t}"@;
    let esc = wpa_escape_spec(ssid);
    let b = network_block(ssid, psk_line, priority);
    assert(b =~= head + esc + tail);
    let key = "ssid="@;
    assert(head.len() == 18);
    assert forall|q: int| 0 <= q < 12 implies !occurs_at(b, key, q) by {
        assert(b[q] == head[q]);
        assert(b.subrange(q, q + 5)[0] == b[q]);
    }
    assert(b.subrange(12, 17) =~= key);
    lemma_find_first_at(b, key, 0, 12);
    reveal_strlit("\"\n\t\tscan_ssid=1\n\t\t");
    let after = b.skip(17);
    assert(after[0] == '"');
    assert(leading_ws(after) == 0);
    assert(trim_start(after) =~= after);
    let inner = after.drop_first();
    let t2 = tail.drop_first();
    assert(tail =~= seq!['"'] + t2);
    assert(inner =~= esc + seq!['"'] + t2);
    lemma_unquote_escape(ssid, t2);
}

/// Rewriting for an SSID leaves no other block for that SSID, keeps the other blocks in
/// their order, and gives the new block a priority above every existing one.
pub proof fn law_wpa_conf_single_network(blocks: Seq<Seq<char>>, ssid: Seq<char>)
    ensures
        forall|k: int|
            0 <= k < kept_blocks(blocks, ssid).len() ==> quoted_value(
                #[trigger] kept_blocks(blocks, ssid)[k],
                "ssid="@,
            ) != Some(ssid),
        kept_blocks(blocks, ssid).len() <= blocks.len(),
        forall|k: int|
            0 <= k < blocks.len() && quoted_value(#[trigger] blocks[k], "ssid="@) != Some(ssid)
                ==> kept_blocks(blocks, ssid).contains(blocks[k]),
        forall|k: int|
            0 <= k < blocks.len() ==> match int_value(#[trigger] blocks[k], "priority="@) {
                Some(p) => p < max_priority(blocks) + 1,
                None => true,
            },
        0 <= max_priority(blocks),
    decreases blocks.len(),
{
    if blocks.len() > 0 {
        let init = blocks.drop_last();
        law_wpa_conf_single_network(init, ssid);
        let kept = kept_blocks(blocks, ssid);
        let ki = kept_blocks(init, ssid);
        assert forall|k: int| 0 <= k < blocks.len() && quoted_value(#[trigger] blocks[k], "ssid="@) != Some(
            ssid,
        ) implies kept.contains(blocks[k]) by {
            if k < blocks.len() - 1 {
                assert(init[k] == blocks[k]);
                let j = choose|j: int| 0 <= j < ki.len() && ki[j] == init[k];
                if quoted_value(blocks.last(), "ssid="@) != Some(ssid) {
                    assert(kept[j] == ki[j]);
                }
            } else {
                assert(kept[kept.len() - 1] == blocks.last());
            }
        }
        assert forall|k: int| 0 <= k < blocks.len() implies match int_value(#[trigger] blocks[k], "priority="@) {
            Some(p) => p < max_priority(blocks) + 1,
            None => true,
        } by {
            if k < blocks.len() - 1 {
                assert(init[k] == blocks[k]);
            }
        }
    }
}

/// The request a client writes: key, SSID and password joined by `%&%`.
pub open spec fn request_text(key: Seq<char>, ssid: Seq<char>, password: Seq<char>) -> Seq<char> {
    key + sep_chars() + ssid + sep_chars() + password
}

/// A request written by a client parses back to its key, SSID and password, whenever
/// the two separators it wrote are the first ones found and none follows (no field
/// holds `%&%`, nor forms one with the separator next to it).
pub proof fn law_wifi_request_round_trip(key: Seq<char>, ssid: Seq<char>, password: Seq<char>)
    requires
        find_from(request_text(key, ssid, password), sep_chars(), 0) == Some(key.len() as int),
        find_from(request_text(key, ssid, password), sep_chars(), key.len() + 3int) == Some(
            key.len() + 3 + ssid.len() as int,
        ),
        find_from(request_text(key, ssid, password), sep_chars(), key.len() + ssid.len() + 6int) is None,
    ensures
        wifi_request_spec(encode_utf8(request_text(key, ssid, password))) == Ok::<
            (Seq<char>, Seq<char>, Seq<char>),
            ParseWifiRequestError,
        >((key, ssid, password)),
{
    let t = request_text(key, ssid, password);
    let sep = sep_chars();
    encode_utf8_valid_utf8(t);
    encode_utf8_decode_utf8(t);
    let a = key.len() as int;
    let b = a + 3 + ssid.len();
    let c = b + 3;
    assert(t.subrange(0, a) =~= key);
    assert(t.subrange(a + 3, b) =~= ssid);
    assert(t.subrange(c, t.len() as int) =~= password);
    let tail = split_from(t, sep, c);
    assert(tail == seq![password]);
    let mid = split_from(t, sep, a + 3);
    assert(mid == seq![ssid] + tail);
    let parts = split_from(t, sep, 0);
    assert(parts == seq![key] + mid);
    assert(parts[0] == key);
    assert(parts[1] == ssid);
    assert(parts[2] == password);
}

/// A quoted `ssid=` line written for an SSID reads back as that SSID, whatever quotes
/// and backslashes it holds.
pub proof fn law_ssid_line_round_trip(ssid: Seq<char>)
    ensures
        quoted_value("ssid=\""@ + wpa_escape_spec(ssid) + "\""@, "ssid="@) == Some(ssid),
{
    reveal_strlit("ssid=\"");
    reveal_strlit("ssid=");
    reveal_strlit("\"");
    let t = "ssid=\""@ + wpa_escape_spec(ssid) + "\""@;
    let key = "ssid="@;
    assert(t.subrange(0, 5) =~= key);
    lemma_find_first_at(t, key, 0, 0);
    let after = t.skip(5);
    assert(after[0] == '"');
    assert(leading_ws(after) == 0);
    assert(trim_start(after) =~= after);
    assert(after.drop_first() =~= wpa_escape_spec(ssid) + seq!['"'] + Seq::<char>::empty());
    lemma_unquote_escape(ssid, Seq::empty());
}

/// A Wi-Fi request whose key and SSID hold no `%` and whose password holds no `%&%`
/// parses back to its key, SSID and password.
pub proof fn law_wifi_request_plain_fields(key: Seq<char>, ssid: Seq<char>, password: Seq<char>)
    requires
        forall|i: int| 0 <= i < key.len() ==> key[i] != '%',
        forall|i: int| 0 <= i < ssid.len() ==> ssid[i] != '%',
        !contains_seq(password, sep_chars()),
    ensures
        wifi_request_spec(encode_utf8(request_text(key, ssid, password))) == Ok::<
            (Seq<char>, Seq<char>, Seq<char>),
            ParseWifiRequestError,
        >((key, ssid, password)),
{
    let t = request_text(key, ssid, password);
    let sep = sep_chars();
    let a = key.len() as int;
    let b = a + 3 + ssid.len();
    let c = b + 3;
    assert forall|q: int| 0 <= q < a implies !occurs_at(t, sep, q) by {
        if occurs_at(t, sep, q) {
            assert(t.subrange(q, q + 3)[0] == t[q]);
            assert(t[q] == key[q]);
        }
    }
    assert(t.subrange(a, a + 3) =~= sep);
    lemma_find_first_at(t, sep, 0, a);
    assert forall|q: int| a + 3 <= q < b implies !occurs_at(t, sep, q) by {
        if occurs_at(t, sep, q) {
            assert(t.subrange(q, q + 3)[0] == t[q]);
            assert(t[q] == ssid[q - a - 3]);
        }
    }
    assert(t.subrange(b, b + 3) =~= sep);
    lemma_find_first_at(t, sep, a + 3, b);
    lemma_find_from_bounds(password, sep, 0);
    assert forall|q: int| c <= q implies !occurs_at(t, sep, q) by {
        if occurs_at(t, sep, q) {
            assert(t.subrange(q, q + 3) =~= password.subrange(q - c, q - c + 3));
            assert(occurs_at(password, sep, q - c));
        }
    }
    lemma_find_none(t, sep, c);
    law_wifi_request_round_trip(key, ssid, password);
}

} // verus!
