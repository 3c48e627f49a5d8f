//! UUIDs of the PiSugar GATT service (they must match the client) and their formatting.
use vstd::prelude::*;
use vstd::string::{StringExecFns, StringSliceAdditionalSpecFns, StrSliceExecFns};
use vstd::utf8::{encode_utf8, is_ascii_chars, is_ascii_chars_encode_utf8};
use crate::text::{string_from_chars, lemma_ascii_bytes_ascii_chars};

verus! {

pub const BASE_UUID_PREFIX: &'static str = "FD2B4448AA0F4A15A62FEB0BE77A";

pub const SERVICE_ID: &'static str = "FD2B4448AA0F4A15A62FEB0BE77A0000";
pub const SERVICE_NAME: &'static str = "FD2B4448AA0F4A15A62FEB0BE77A0001";
pub const DEVICE_MODEL: &'static str = "FD2B4448AA0F4A15A62FEB0BE77A0002";
pub const WIFI_NAME: &'static str = "FD2B4448AA0F4A15A62FEB0BE77A0003";
pub const IP_ADDRESS: &'static str = "FD2B4448AA0F4A15A62FEB0BE77A0004";
pub const INPUT: &'static str = "FD2B4448AA0F4A15A62FEB0BE77A0005";
pub const NOTIFY_MESSAGE: &'static str = "FD2B4448AA0F4A15A62FEB0BE77A0006";
pub const INPUT_SEP: &'static str = "FD2B4448AA0F4A15A62FEB0BE77A0007";
pub const CUSTOM_COMMAND_INPUT: &'static str = "FD2B4448AA0F4A15A62FEB0BE77A0008";
pub const CUSTOM_COMMAND_NOTIFY: &'static str = "FD2B4448AA0F4A15A62FEB0BE77A0009";

// Dynamic characteristic UUID prefixes.
pub const CUSTOM_INFO_LABEL_PREFIX: &'static str = "FD2BCCCA";
pub const CUSTOM_INFO_COUNT: &'static str = "FD2BCCAA0000";
pub const CUSTOM_INFO_PREFIX: &'static str = "FD2BCCCB";
pub const CUSTOM_COMMAND_LABEL_PREFIX: &'static str = "FD2BCCCC";
pub const CUSTOM_COMMAND_COUNT: &'static str = "FD2BCCAC0000";

/// Upper-case hexadecimal digit of a value below 16.
pub open spec fn upper_hex_digit(d: nat) -> char {
    if d < 10 {
        ((d + 48) as u32) as char
    } else {
        ((d + 55) as u32) as char
    }
}

/// `n` in upper-case hexadecimal, left-padded with zeros to at least `width` digits
/// (what `format!("{n:0width$X}")` prints).
pub open spec fn upper_hex(n: nat, width: nat) -> Seq<char>
    decreases n, width,
{
    if n == 0 && width == 0 {
        Seq::empty()
    } else {
        upper_hex(n / 16, if width > 0 { (width - 1) as nat } else { 0 }).push(
            upper_hex_digit(n % 16),
        )
    }
}

fn upper_hex_digit_char(d: u64) -> (r: char)
    requires
        d < 16,
    ensures
        r == upper_hex_digit(d as nat),
{
    if d < 10 {
        let c = (d + 48) as u8 as char;
        assert(c == ((d + 48) as u32) as char) by {
            assert((d + 48) as u8 as char == ((d + 48) as u32) as char);
        }
        c
    } else {
        let c = (d + 55) as u8 as char;
        assert(c == ((d + 55) as u32) as char) by {
            assert((d + 55) as u8 as char == ((d + 55) as u32) as char);
        }
        c
    }
}

/// `n` in upper-case hexadecimal, left-padded with zeros to at least `width` digits.
pub fn upper_hex_chars(n: u64, width: u64) -> (r: Vec<char>)
    ensures
        r@ == upper_hex(n as nat, width as nat),
{
    let mut digits: Vec<char> = Vec::new();
    let mut rest: u64 = n;
    let mut w: u64 = width;
    while rest > 0 || w > 0
        invariant
            upper_hex(n as nat, width as nat) == upper_hex(rest as nat, w as nat) + digits@,
        decreases rest, w,
    {
        let d = upper_hex_digit_char(rest % 16);
        let ghost old_digits = digits@;
        digits.insert(0, d);
        proof {
            let w2: nat = if w > 0 { (w - 1) as nat } else { 0 };
            assert(upper_hex(rest as nat, w as nat) == upper_hex((rest / 16) as nat, w2).push(
                upper_hex_digit((rest % 16) as nat),
            ));
            assert(upper_hex((rest / 16) as nat, w2).push(d) + old_digits =~= upper_hex(
                (rest / 16) as nat,
                w2,
            ) + digits@);
        }
        rest = rest / 16;
        if w > 0 {
            w = w - 1;
        }
    }
    assert(upper_hex(0, 0) + digits@ =~= digits@);
    digits
}

/// The 4-hex suffix of the 0-based index `index0`: the 1-based position in upper-case
/// hexadecimal, at least 4 digits (0 gives "0001").
pub fn suffix_for_index0(index0: usize) -> (r: String)
    requires
        (index0 as u32) < u32::MAX,
    ensures
        r@ == upper_hex((index0 as u32) as nat + 1, 4),
{
    let n: u32 = (index0 as u32) + 1;
    let digits = upper_hex_chars(n as u64, 4);
    string_from_chars(digits.as_slice())
}

/// Why a raw UUID cannot be given to BlueZ.
#[derive(Debug, Clone, Copy, PartialEq, Eq)]
pub enum UuidError {
    /// 32 bytes long, but not all hexadecimal digits.
    InvalidHex32,
    /// 12 bytes long, but not all hexadecimal digits.
    InvalidHex12,
    /// Neither 32 nor 12 bytes long.
    UnsupportedLength,
}

impl UuidError {
    /// The error text for the offending `raw` UUID.
    pub fn message(&self, raw: &str) -> (r: String)
        ensures
            r@ == match self {
                UuidError::InvalidHex32 => "invalid 32-hex UUID: "@ + raw@,
                UuidError::InvalidHex12 => "invalid 12-hex UUID: "@ + raw@,
                UuidError::UnsupportedLength => "unsupported UUID length: "@ + raw@,
            },
    {
        match self {
            UuidError::InvalidHex32 => String::from_str("invalid 32-hex UUID: ").concat(raw),
            UuidError::InvalidHex12 => String::from_str("invalid 12-hex UUID: ").concat(raw),
            UuidError::UnsupportedLength => String::from_str("unsupported UUID length: ").concat(raw),
        }
    }
}

/// An ASCII hexadecimal digit byte.
pub open spec fn is_hex_byte(b: u8) -> bool {
    ||| 48 <= b <= 57
    ||| 97 <= b <= 102
    ||| 65 <= b <= 70
}

/// The dashed 8-4-4-4-12 form of 32 characters.
pub open spec fn dashed32(c: Seq<char>) -> Seq<char> {
    c.subrange(0, 8) + seq!['-'] + c.subrange(8, 12) + seq!['-'] + c.subrange(12, 16) + seq!['-']
        + c.subrange(16, 20) + seq!['-'] + c.subrange(20, 32)
}

/// What `bluez_uuid` gives for a UUID with characters `c` and UTF-8 bytes `b`.
pub open spec fn bluez_uuid_spec(c: Seq<char>, b: Seq<u8>) -> Result<Seq<char>, UuidError> {
    let hex = forall|i: int| 0 <= i < b.len() ==> is_hex_byte(#[trigger] b[i]);
    if b.len() == 32 {
        if hex {
            Ok(dashed32(c))
        } else {
            Err(UuidError::InvalidHex32)
        }
    } else if b.len() == 12 {
        if hex {
            Ok("00000000-0000-0000-0000-"@ + c)
        } else {
            Err(UuidError::InvalidHex12)
        }
    } else {
        Err(UuidError::UnsupportedLength)
    }
}

fn all_hex_bytes(b: &[u8]) -> (r: bool)
    ensures
        r == (forall|i: int| 0 <= i < b@.len() ==> is_hex_byte(#[trigger] b@[i])),
{
    let mut i: usize = 0;
    while i < b.len()
        invariant
            i <= b@.len(),
            forall|k: int| 0 <= k < i ==> is_hex_byte(#[trigger] b@[k]),
        decreases b@.len() - i,
    {
        let x = b[i];
        if !((48 <= x && x <= 57) || (97 <= x && x <= 102) || (65 <= x && x <= 70)) {
            return false;
        }
        i += 1;
    }
    true
}

/// Convert a raw 12- or 32-hex UUID into the dashed form BlueZ expects.
pub fn bluez_uuid(raw: &str) -> (r: Result<String, UuidError>)
    ensures
        match bluez_uuid_spec(raw@, raw.spec_bytes()) {
            Ok(s) => r matches Ok(v) && v@ == s,
            Err(e) => r == Err::<String, UuidError>(e),
        },
{
    let bytes = raw.as_bytes();
    let n = bytes.len();
    if n != 32 && n != 12 {
        return Err(UuidError::UnsupportedLength);
    }
    if !all_hex_bytes(bytes) {
        return if n == 32 {
            Err(UuidError::InvalidHex32)
        } else {
            Err(UuidError::InvalidHex12)
        };
    }
    proof {
        assert forall|i: int| 0 <= i < encode_utf8(raw@).len() implies #[trigger] encode_utf8(
            raw@,
        )[i] < 128 by {
            assert(is_hex_byte(bytes@[i]));
        }
        lemma_ascii_bytes_ascii_chars(raw@);
        is_ascii_chars_encode_utf8(raw@);
    }
    if n == 12 {
        let prefix = String::from_str("00000000-0000-0000-0000-");
        return Ok(prefix.concat(raw));
    }
    proof {
        reveal_strlit("-");
    }
    let out = String::from_str(raw.substring_ascii(0, 8)).concat("-").concat(
        raw.substring_ascii(8, 12),
    ).concat("-").concat(raw.substring_ascii(12, 16)).concat("-").concat(
        raw.substring_ascii(16, 20),
    ).concat("-").concat(raw.substring_ascii(20, 32));
    assert(out@ =~= dashed32(raw@));
    Ok(out)
}

} // verus!
