//! The GATT application exported to BlueZ: its object paths, the characteristics it
//! offers (in order, with their UUIDs, flags and read values), the advertisement, and
//! how a characteristic is found again by UUID or by path.
use vstd::prelude::*;
use vstd::string::{StringExecFns, StringSliceAdditionalSpecFns};
use vstd::utf8::encode_utf8;
use crate::config::{CustomConfigFile, CustomInfoItem, CustomCommandItem};
use crate::uuid::{
    upper_hex, upper_hex_chars, bluez_uuid, bluez_uuid_spec, UuidError, SERVICE_NAME, DEVICE_MODEL,
    WIFI_NAME, IP_ADDRESS, INPUT, INPUT_SEP, NOTIFY_MESSAGE, CUSTOM_INFO_COUNT,
    CUSTOM_INFO_LABEL_PREFIX, CUSTOM_INFO_PREFIX, CUSTOM_COMMAND_COUNT, CUSTOM_COMMAND_LABEL_PREFIX,
    CUSTOM_COMMAND_INPUT, CUSTOM_COMMAND_NOTIFY,
};
use crate::text::{decimal, decimal_chars, string_from_chars, str_chars, chars_eq};
use crate::exec::{string_views, string_list};
use crate::custom_command::{string_bytes, pow16, lemma_upper_hex};
use crate::text::{all_hex, is_hex_digit};
use crate::uuid::is_hex_byte;
use vstd::utf8::{is_ascii_chars, is_ascii_chars_encode_utf8};

verus! {

/// Object path of the application root (the object manager).
pub const APP_ROOT_PATH: &'static str = "/com/sugar/wifi_conf";

/// Object path of the advertisement.
pub const ADVERTISEMENT_PATH: &'static str = "/com/sugar/wifi_conf/advertisement0";

/// Object path of the GATT service.
pub const SERVICE_PATH: &'static str = "/com/sugar/wifi_conf/service0";

/// Advertised BLE type.
pub const ADVERTISEMENT_TYPE: &'static str = "peripheral";

/// Device model shown when it cannot be read.
pub const UNKNOWN_MODEL: &'static str = "unknown";

/// A characteristic to export, before any D-Bus object exists.
#[derive(Debug, Clone)]
pub struct CharacteristicDef {
    /// Its object path.
    pub path: String,
    /// Its UUID in the dashed form.
    pub uuid: String,
    pub flags: Vec<String>,
    /// What reading it gives, when it has a reader (also its initial value).
    pub read_value: Option<Vec<u8>>,
    /// Whether it accepts writes.
    pub writable: bool,
}

/// A characteristic UUID that BlueZ would not accept.
#[derive(Debug, Clone)]
pub struct GattPlanError {
    pub error: UuidError,
    /// The raw UUID refused.
    pub raw: String,
}

/// A characteristic as listed, before its UUID is converted: raw UUID, flags, read
/// value, writable.
pub struct CharEntry {
    pub raw: Seq<char>,
    pub flags: Seq<Seq<char>>,
    pub read: Option<Seq<u8>>,
    pub writable: bool,
}

/// A characteristic to export, as plain values.
pub struct CharView {
    pub path: Seq<char>,
    pub uuid: Seq<char>,
    pub flags: Seq<Seq<char>>,
    pub read: Option<Seq<u8>>,
    pub writable: bool,
}

/// Optional bytes as plain values.
pub open spec fn opt_bytes(o: Option<Vec<u8>>) -> Option<Seq<u8>> {
    match o {
        Some(v) => Some(v@),
        None => None,
    }
}

/// A definition as plain values.
pub open spec fn def_view(d: CharacteristicDef) -> CharView {
    CharView {
        path: d.path@,
        uuid: d.uuid@,
        flags: string_views(d.flags@),
        read: opt_bytes(d.read_value),
        writable: d.writable,
    }
}

/// Flags of a readable characteristic.
pub open spec fn read_flags() -> Seq<Seq<char>> {
    seq!["read"@]
}

/// Flags of a notifying characteristic.
pub open spec fn notify_flags() -> Seq<Seq<char>> {
    seq!["notify"@]
}

/// Flags of a writable characteristic.
pub open spec fn write_flags() -> Seq<Seq<char>> {
    seq!["write"@, "write-without-response"@]
}

/// An ASCII letter in lower case (other characters unchanged).
pub open spec fn lower_char(c: char) -> char {
    if 'A' <= c <= 'Z' {
        ((c as u32) + 32) as char
    } else {
        c
    }
}

/// `str::to_ascii_lowercase`.
pub open spec fn ascii_lower(s: Seq<char>) -> Seq<char> {
    s.map_values(|c: char| lower_char(c))
}

/// The lower-case 4-hex suffix of the item at 0-based index `i`.
pub open spec fn lower_suffix(i: nat) -> Seq<char> {
    ascii_lower(upper_hex(i + 1, 4))
}

/// The path of the characteristic at position `k`.
pub open spec fn char_path(k: nat) -> Seq<char> {
    "/com/sugar/wifi_conf/service0/char"@ + decimal(k)
}

/// The characteristics every application has, in order.
pub open spec fn core_entries(name: Seq<char>, model: Seq<char>) -> Seq<CharEntry> {
    seq![
        CharEntry { raw: SERVICE_NAME@, flags: read_flags(), read: Some(encode_utf8(name)), writable: false },
        CharEntry { raw: DEVICE_MODEL@, flags: read_flags(), read: Some(encode_utf8(model)), writable: false },
        CharEntry { raw: WIFI_NAME@, flags: notify_flags(), read: None, writable: false },
        CharEntry { raw: IP_ADDRESS@, flags: notify_flags(), read: None, writable: false },
        CharEntry { raw: INPUT@, flags: write_flags(), read: None, writable: true },
        CharEntry { raw: INPUT_SEP@, flags: write_flags(), read: None, writable: true },
        CharEntry { raw: NOTIFY_MESSAGE@, flags: notify_flags(), read: None, writable: false },
    ]
}

/// The label and value characteristics of the custom info items.
pub open spec fn info_entries(info: Seq<CustomInfoItem>) -> Seq<CharEntry>
    decreases info.len(),
{
    if info.len() == 0 {
        Seq::empty()
    } else {
        let i = (info.len() - 1) as nat;
        info_entries(info.drop_last()) + seq![
            CharEntry {
                raw: CUSTOM_INFO_LABEL_PREFIX@ + lower_suffix(i),
                flags: read_flags(),
                read: Some(encode_utf8(info.last().label@)),
                writable: false,
            },
            CharEntry { raw: CUSTOM_INFO_PREFIX@ + lower_suffix(i), flags: notify_flags(), read: None, writable: false },
        ]
    }
}

/// The label characteristics of the custom commands.
pub open spec fn command_entries(cmds: Seq<CustomCommandItem>) -> Seq<CharEntry>
    decreases cmds.len(),
{
    if cmds.len() == 0 {
        Seq::empty()
    } else {
        let i = (cmds.len() - 1) as nat;
        command_entries(cmds.drop_last()).push(
            CharEntry {
                raw: CUSTOM_COMMAND_LABEL_PREFIX@ + lower_suffix(i),
                flags: read_flags(),
                read: Some(encode_utf8(cmds.last().label@)),
                writable: false,
            },
        )
    }
}

/// The characteristics a custom configuration adds, in order.
pub open spec fn custom_entries(c: CustomConfigFile) -> Seq<CharEntry> {
    seq![
        CharEntry {
            raw: CUSTOM_INFO_COUNT@,
            flags: read_flags(),
            read: Some(encode_utf8(decimal(c.info@.len()))),
            writable: false,
        },
    ] + info_entries(c.info@) + seq![
        CharEntry {
            raw: CUSTOM_COMMAND_COUNT@,
            flags: read_flags(),
            read: Some(encode_utf8(decimal(c.commands@.len()))),
            writable: false,
        },
    ] + command_entries(c.commands@) + seq![
        CharEntry { raw: CUSTOM_COMMAND_INPUT@, flags: write_flags(), read: None, writable: true },
        CharEntry { raw: CUSTOM_COMMAND_NOTIFY@, flags: notify_flags(), read: None, writable: false },
    ]
}

/// All characteristics of the application, in order.
pub open spec fn gatt_entries(name: Seq<char>, model: Seq<char>, custom: Option<CustomConfigFile>) -> Seq<
    CharEntry,
> {
    core_entries(name, model) + match custom {
        Some(c) => custom_entries(c),
        None => Seq::empty(),
    }
}

/// What BlueZ is given for a raw UUID.
pub open spec fn uuid_of(raw: Seq<char>) -> Result<Seq<char>, UuidError> {
    bluez_uuid_spec(raw, encode_utf8(raw))
}

/// Add one characteristic: numbered after those before it; the first refused UUID stops
/// the whole application.
pub open spec fn plan_step(acc: Result<Seq<CharView>, (UuidError, Seq<char>)>, e: CharEntry) -> Result<
    Seq<CharView>,
    (UuidError, Seq<char>),
> {
    match acc {
        Err(x) => Err(x),
        Ok(done) => match uuid_of(e.raw) {
            Ok(u) => Ok(
                done.push(
                    CharView {
                        path: char_path(done.len()),
                        uuid: u,
                        flags: e.flags,
                        read: e.read,
                        writable: e.writable,
                    },
                ),
            ),
            Err(err) => Err((err, e.raw)),
        },
    }
}

/// The characteristics made of a list, in order, after those of `acc`.
pub open spec fn plan_fold_acc(
    acc: Result<Seq<CharView>, (UuidError, Seq<char>)>,
    es: Seq<CharEntry>,
) -> Result<Seq<CharView>, (UuidError, Seq<char>)>
    decreases es.len(),
{
    if es.len() == 0 {
        acc
    } else {
        plan_step(plan_fold_acc(acc, es.drop_last()), es.last())
    }
}

/// The characteristics made of a list, in order.
pub open spec fn plan_fold(es: Seq<CharEntry>) -> Result<Seq<CharView>, (UuidError, Seq<char>)> {
    plan_fold_acc(Ok(Seq::empty()), es)
}

proof fn lemma_plan_fold_push(acc: Result<Seq<CharView>, (UuidError, Seq<char>)>, es: Seq<CharEntry>, e: CharEntry)
    ensures
        plan_fold_acc(acc, es.push(e)) == plan_step(plan_fold_acc(acc, es), e),
{
    assert(es.push(e).drop_last() =~= es);
}

proof fn lemma_plan_fold_concat(
    acc: Result<Seq<CharView>, (UuidError, Seq<char>)>,
    a: Seq<CharEntry>,
    b: Seq<CharEntry>,
)
    ensures
        plan_fold_acc(acc, a + b) == plan_fold_acc(plan_fold_acc(acc, a), b),
    decreases b.len(),
{
    if b.len() == 0 {
        assert(a + b =~= a);
    } else {
        lemma_plan_fold_concat(acc, a, b.drop_last());
        assert((a + b).drop_last() =~= a + b.drop_last());
        assert((a + b).last() == b.last());
    }
}

/// The characteristics of the application for this name, device model and optional
/// custom configuration.
pub open spec fn gatt_plan_spec(name: Seq<char>, model: Seq<char>, custom: Option<CustomConfigFile>) -> Result<
    Seq<CharView>,
    (UuidError, Seq<char>),
> {
    plan_fold(gatt_entries(name, model, custom))
}

/// A planning result as plain values.
pub open spec fn plan_view(r: Result<Vec<CharacteristicDef>, GattPlanError>) -> Result<
    Seq<CharView>,
    (UuidError, Seq<char>),
> {
    match r {
        Ok(v) => Ok(v@.map_values(|d: CharacteristicDef| def_view(d))),
        Err(e) => Err((e.error, e.raw@)),
    }
}

fn read_flag_list() -> (r: Vec<String>)
    ensures
        string_views(r@) == read_flags(),
{
    let v = string_list(&["read"]);
    assert(string_views(v@) =~= read_flags());
    v
}

fn notify_flag_list() -> (r: Vec<String>)
    ensures
        string_views(r@) == notify_flags(),
{
    let v = string_list(&["notify"]);
    assert(string_views(v@) =~= notify_flags());
    v
}

fn write_flag_list() -> (r: Vec<String>)
    ensures
        string_views(r@) == write_flags(),
{
    let v = string_list(&["write", "write-without-response"]);
    assert(string_views(v@) =~= write_flags());
    v
}

/// `n` in lower-case hexadecimal, at least 4 digits (`format!("{n:04x}")`).
fn lower_hex4(n: u64) -> (r: Vec<char>)
    ensures
        r@ == ascii_lower(upper_hex(n as nat, 4)),
{
    let digits = upper_hex_chars(n, 4);
    let ghost up = digits@;
    let mut out: Vec<char> = Vec::new();
    let mut i: usize = 0;
    while i < digits.len()
        invariant
            i <= digits@.len(),
            up == digits@,
            up == upper_hex(n as nat, 4),
            out@ == ascii_lower(up.take(i as int)),
        decreases digits@.len() - i,
    {
        let c = digits[i];
        let l = if 'A' <= c && c <= 'Z' {
            ((c as u32) + 32) as u8 as char
        } else {
            c
        };
        proof {
            if 'A' <= c && c <= 'Z' {
                assert(((c as u32) + 32) as u8 as char == (((c as u32) + 32) as u32) as char);
            }
        }
        out.push(l);
        assert(out@ =~= ascii_lower(up.take(i + 1)));
        i += 1;
    }
    assert(up.take(i as int) =~= up);
    out
}

/// The lower-case suffix of the item at 0-based index `index0`.
fn lower_suffix_string(index0: usize) -> (r: String)
    requires
        index0 < usize::MAX,
    ensures
        r@ == lower_suffix(index0 as nat),
{
    let v = lower_hex4((index0 + 1) as u64);
    string_from_chars(v.as_slice())
}

/// The UUID of the value characteristic of custom info item `index0` (0-based).
pub fn custom_info_value_uuid(index0: usize) -> (r: String)
    requires
        index0 < usize::MAX,
    ensures
        r@ == CUSTOM_INFO_PREFIX@ + lower_suffix(index0 as nat),
{
    String::from_str(CUSTOM_INFO_PREFIX).concat(lower_suffix_string(index0).as_str())
}

fn char_path_string(k: usize) -> (r: String)
    ensures
        r@ == char_path(k as nat),
{
    let d = decimal_chars(k as u64);
    String::from_str("/com/sugar/wifi_conf/service0/char").concat(string_from_chars(d.as_slice()).as_str())
}

/// Add one characteristic to what is planned so far.
fn add_char(
    acc: &mut Result<Vec<CharacteristicDef>, GattPlanError>,
    raw: String,
    flags: Vec<String>,
    read_value: Option<Vec<u8>>,
    writable: bool,
)
    ensures
        plan_view(*final(acc)) == plan_step(
            plan_view(*old(acc)),
            CharEntry { raw: raw@, flags: string_views(flags@), read: opt_bytes(read_value), writable },
        ),
{
    match acc {
        Ok(defs) => {
            match bluez_uuid(raw.as_str()) {
                Ok(uuid) => {
                    let path = char_path_string(defs.len());
                    let ghost prev = defs@.map_values(|d: CharacteristicDef| def_view(d));
                    let d = CharacteristicDef { path, uuid, flags, read_value, writable };
                    defs.push(d);
                    assert(defs@.map_values(|d: CharacteristicDef| def_view(d)) =~= prev.push(
                        def_view(d),
                    ));
                },
                Err(error) => {
                    *acc = Err(GattPlanError { error, raw });
                },
            }
        },
        Err(_) => {},
    }
}

fn add_core_chars(acc: &mut Result<Vec<CharacteristicDef>, GattPlanError>, name: &str, device_model: &str)
    ensures
        plan_view(*final(acc)) == plan_fold_acc(plan_view(*old(acc)), core_entries(name@, device_model@)),
{
    let ghost start = plan_view(*acc);
    let core: Vec<(&str, u8)> = vec![
        (SERVICE_NAME, 0u8),
        (DEVICE_MODEL, 1u8),
        (WIFI_NAME, 2u8),
        (IP_ADDRESS, 2u8),
        (INPUT, 3u8),
        (INPUT_SEP, 3u8),
        (NOTIFY_MESSAGE, 2u8),
    ];
    let ghost ce = core_entries(name@, device_model@);
    let mut i: usize = 0;
    while i < core.len()
        invariant
            i <= core@.len(),
            core@ == seq![
                (SERVICE_NAME, 0u8),
                (DEVICE_MODEL, 1u8),
                (WIFI_NAME, 2u8),
                (IP_ADDRESS, 2u8),
                (INPUT, 3u8),
                (INPUT_SEP, 3u8),
                (NOTIFY_MESSAGE, 2u8),
            ],
            ce == core_entries(name@, device_model@),
            plan_view(*acc) == plan_fold_acc(start, ce.take(i as int)),
        decreases core@.len() - i,
    {
        let (raw, kind) = core[i];
        let (flags, read_value, writable) = if kind == 0 {
            (read_flag_list(), Some(string_bytes(name)), false)
        } else if kind == 1 {
            (read_flag_list(), Some(string_bytes(device_model)), false)
        } else if kind == 2 {
            (notify_flag_list(), None, false)
        } else {
            (write_flag_list(), None, true)
        };
        let ghost e = CharEntry {
            raw: raw@,
            flags: string_views(flags@),
            read: opt_bytes(read_value),
            writable,
        };
        assert(e == ce[i as int]);
        add_char(acc, String::from_str(raw), flags, read_value, writable);
        proof {
            lemma_plan_fold_push(start, ce.take(i as int), e);
            assert(ce.take(i as int).push(e) =~= ce.take(i + 1));
        }
        i += 1;
    }
    assert(ce.take(i as int) =~= ce);
}

fn add_info_chars(acc: &mut Result<Vec<CharacteristicDef>, GattPlanError>, info: &[CustomInfoItem])
    ensures
        plan_view(*final(acc)) == plan_fold_acc(plan_view(*old(acc)), info_entries(info@)),
{
    let ghost start = plan_view(*acc);
    let mut k: usize = 0;
    while k < info.len()
        invariant
            k <= info@.len(),
            plan_view(*acc) == plan_fold_acc(start, info_entries(info@.take(k as int))),
        decreases info@.len() - k,
    {
        let ghost t = info@.take(k + 1);
        let ghost prev = info_entries(info@.take(k as int));
        let ghost el = CharEntry {
            raw: CUSTOM_INFO_LABEL_PREFIX@ + lower_suffix(k as nat),
            flags: read_flags(),
            read: Some(encode_utf8(info@[k as int].label@)),
            writable: false,
        };
        let ghost ev = CharEntry {
            raw: CUSTOM_INFO_PREFIX@ + lower_suffix(k as nat),
            flags: notify_flags(),
            read: None,
            writable: false,
        };
        proof {
            assert(t.drop_last() =~= info@.take(k as int));
            assert(t.last() == info@[k as int]);
            assert(info_entries(t) == prev + seq![el, ev]);
            assert(prev + seq![el, ev] =~= prev.push(el).push(ev));
            lemma_plan_fold_push(start, prev, el);
            lemma_plan_fold_push(start, prev.push(el), ev);
        }
        if acc.is_ok() {
            let sfx = lower_suffix_string(k);
            let label_raw = String::from_str(CUSTOM_INFO_LABEL_PREFIX).concat(sfx.as_str());
            let value_raw = String::from_str(CUSTOM_INFO_PREFIX).concat(sfx.as_str());
            add_char(acc, label_raw, read_flag_list(), Some(string_bytes(info[k].label.as_str())), false);
            add_char(acc, value_raw, notify_flag_list(), None, false);
        }
        k += 1;
    }
    assert(info@.take(k as int) =~= info@);
}

fn add_command_chars(acc: &mut Result<Vec<CharacteristicDef>, GattPlanError>, cmds: &[CustomCommandItem])
    ensures
        plan_view(*final(acc)) == plan_fold_acc(plan_view(*old(acc)), command_entries(cmds@)),
{
    let ghost start = plan_view(*acc);
    let mut j: usize = 0;
    while j < cmds.len()
        invariant
            j <= cmds@.len(),
            plan_view(*acc) == plan_fold_acc(start, command_entries(cmds@.take(j as int))),
        decreases cmds@.len() - j,
    {
        let ghost t = cmds@.take(j + 1);
        let ghost prev = command_entries(cmds@.take(j as int));
        let ghost el = CharEntry {
            raw: CUSTOM_COMMAND_LABEL_PREFIX@ + lower_suffix(j as nat),
            flags: read_flags(),
            read: Some(encode_utf8(cmds@[j as int].label@)),
            writable: false,
        };
        proof {
            assert(t.drop_last() =~= cmds@.take(j as int));
            assert(t.last() == cmds@[j as int]);
            assert(command_entries(t) == prev.push(el));
            lemma_plan_fold_push(start, prev, el);
        }
        if acc.is_ok() {
            let sfx = lower_suffix_string(j);
            let raw = String::from_str(CUSTOM_COMMAND_LABEL_PREFIX).concat(sfx.as_str());
            add_char(acc, raw, read_flag_list(), Some(string_bytes(cmds[j].label.as_str())), false);
        }
        j += 1;
    }
    assert(cmds@.take(j as int) =~= cmds@);
}

fn add_custom_chars(acc: &mut Result<Vec<CharacteristicDef>, GattPlanError>, c: &CustomConfigFile)
    ensures
        plan_view(*final(acc)) == plan_fold_acc(plan_view(*old(acc)), custom_entries(*c)),
{
    let ghost a0 = plan_view(*acc);
    let ghost e0 = CharEntry {
        raw: CUSTOM_INFO_COUNT@,
        flags: read_flags(),
        read: Some(encode_utf8(decimal(c.info@.len()))),
        writable: false,
    };
    let ghost e1 = CharEntry {
        raw: CUSTOM_COMMAND_COUNT@,
        flags: read_flags(),
        read: Some(encode_utf8(decimal(c.commands@.len()))),
        writable: false,
    };
    let ghost e2 = CharEntry { raw: CUSTOM_COMMAND_INPUT@, flags: write_flags(), read: None, writable: true };
    let ghost e3 = CharEntry {
        raw: CUSTOM_COMMAND_NOTIFY@,
        flags: notify_flags(),
        read: None,
        writable: false,
    };
    let count = decimal_chars(c.info.len() as u64);
    let count_s = string_from_chars(count.as_slice());
    add_char(acc, String::from_str(CUSTOM_INFO_COUNT), read_flag_list(), Some(string_bytes(count_s.as_str())), false);
    let ghost a1 = plan_view(*acc);
    add_info_chars(acc, c.info.as_slice());
    let ghost a2 = plan_view(*acc);
    let ccount = decimal_chars(c.commands.len() as u64);
    let ccount_s = string_from_chars(ccount.as_slice());
    add_char(
        acc,
        String::from_str(CUSTOM_COMMAND_COUNT),
        read_flag_list(),
        Some(string_bytes(ccount_s.as_str())),
        false,
    );
    let ghost a3 = plan_view(*acc);
    add_command_chars(acc, c.commands.as_slice());
    let ghost a4 = plan_view(*acc);
    add_char(acc, String::from_str(CUSTOM_COMMAND_INPUT), write_flag_list(), None, true);
    let ghost a5 = plan_view(*acc);
    add_char(acc, String::from_str(CUSTOM_COMMAND_NOTIFY), notify_flag_list(), None, false);
    proof {
        let ie = info_entries(c.info@);
        let me = command_entries(c.commands@);
        assert(a1 == plan_fold_acc(a0, seq![e0])) by {
            lemma_plan_fold_push(a0, Seq::empty(), e0);
            assert(Seq::<CharEntry>::empty().push(e0) =~= seq![e0]);
        }
        lemma_plan_fold_concat(a0, seq![e0], ie);
        assert(a3 == plan_fold_acc(a0, (seq![e0] + ie).push(e1))) by {
            lemma_plan_fold_push(a0, seq![e0] + ie, e1);
        }
        assert((seq![e0] + ie).push(e1) =~= seq![e0] + ie + seq![e1]);
        lemma_plan_fold_concat(a0, seq![e0] + ie + seq![e1], me);
        let pre = seq![e0] + ie + seq![e1] + me;
        lemma_plan_fold_push(a0, pre, e2);
        lemma_plan_fold_push(a0, pre.push(e2), e3);
        assert(pre.push(e2).push(e3) =~= custom_entries(*c));
    }
}

/// The characteristics of the application, in export order: the core ones, then (only
/// with a custom configuration) the info count, each info item's label and value, the
/// command count, each command's label, the command input and its notifications. Fails
/// on the first UUID BlueZ would refuse (past 65535 items).
pub fn gatt_characteristics(name: &str, device_model: &str, custom: Option<&CustomConfigFile>) -> (r:
    Result<Vec<CharacteristicDef>, GattPlanError>)
    ensures
        plan_view(r) == gatt_plan_spec(
            name@,
            device_model@,
            match custom {
                Some(c) => Some(*c),
                None => None,
            },
        ),
{
    let mut acc: Result<Vec<CharacteristicDef>, GattPlanError> = Ok(Vec::new());
    assert(plan_view(acc) == Ok::<Seq<CharView>, (UuidError, Seq<char>)>(Seq::empty())) by {
        assert(Seq::<CharacteristicDef>::empty().map_values(|d: CharacteristicDef| def_view(d)) =~= Seq::<
            CharView,
        >::empty());
    }
    add_core_chars(&mut acc, name, device_model);
    let ghost ce = core_entries(name@, device_model@);
    match custom {
        Some(c) => {
            add_custom_chars(&mut acc, c);
            proof {
                lemma_plan_fold_concat(Ok(Seq::empty()), ce, custom_entries(*c));
            }
        },
        None => {
            assert(ce + Seq::<CharEntry>::empty() =~= ce);
        },
    }
    acc
}


/// Something a client can read.
pub trait ReadableCharacteristic {
    fn read(&self) -> Vec<u8>;
}

impl ReadableCharacteristic for CharacteristicDef {
    /// What reading the characteristic gives: its read value (empty without a reader).
    fn read(&self) -> (r: Vec<u8>)
        ensures
            r@ == match self.read_value {
                Some(v) => v@,
                None => Seq::empty(),
            },
    {
        match &self.read_value {
            Some(v) => v.clone(),
            None => Vec::new(),
        }
    }
}

/// The last position in `views` whose UUID is `key` (later characteristics shadow
/// earlier ones with the same UUID).
pub open spec fn last_with_uuid(views: Seq<CharView>, key: Seq<char>) -> Option<int>
    decreases views.len(),
{
    if views.len() == 0 {
        None
    } else if views.last().uuid == key {
        Some(views.len() - 1)
    } else {
        last_with_uuid(views.drop_last(), key)
    }
}

/// The last position in `views` whose object path is `path`.
pub open spec fn last_with_path(views: Seq<CharView>, path: Seq<char>) -> Option<int>
    decreases views.len(),
{
    if views.len() == 0 {
        None
    } else if views.last().path == path {
        Some(views.len() - 1)
    } else {
        last_with_path(views.drop_last(), path)
    }
}

/// The characteristic a raw UUID designates: its dashed form is looked up; `None` for a
/// UUID BlueZ would refuse or one not offered.
pub fn characteristic_by_uuid(defs: &[CharacteristicDef], uuid: &str) -> (r: Option<usize>)
    ensures
        r == match uuid_of(uuid@) {
            Ok(key) => match last_with_uuid(defs@.map_values(|d: CharacteristicDef| def_view(d)), key) {
                Some(k) => Some(k as usize),
                None => None::<usize>,
            },
            Err(_) => None,
        },
{
    assert(uuid.spec_bytes() == encode_utf8(uuid@));
    let key = match bluez_uuid(uuid) {
        Ok(k) => k,
        Err(_) => return None,
    };
    let kc = str_chars(key.as_str());
    let ghost views = defs@.map_values(|d: CharacteristicDef| def_view(d));
    let mut n: usize = defs.len();
    assert(views.take(n as int) =~= views);
    while n > 0
        invariant
            n <= defs@.len(),
            views == defs@.map_values(|d: CharacteristicDef| def_view(d)),
            kc@ == key@,
            uuid_of(uuid@) == Ok::<Seq<char>, UuidError>(key@),
            last_with_uuid(views, key@) == last_with_uuid(views.take(n as int), key@),
        decreases n,
    {
        let u = str_chars(defs[n - 1].uuid.as_str());
        proof {
            assert(views.take(n as int).drop_last() =~= views.take(n - 1));
            assert(views.take(n as int).last() == def_view(defs@[n - 1]));
        }
        if chars_eq(u.as_slice(), kc.as_slice()) {
            assert(views.take(n as int).last().uuid == key@);
            assert(last_with_uuid(views.take(n as int), key@) == Some(n - 1));
            return Some(n - 1);
        }
        n -= 1;
    }
    None
}

/// The characteristic at an object path.
pub fn characteristic_by_path(defs: &[CharacteristicDef], path: &str) -> (r: Option<usize>)
    ensures
        r == match last_with_path(defs@.map_values(|d: CharacteristicDef| def_view(d)), path@) {
            Some(k) => Some(k as usize),
            None => None::<usize>,
        },
{
    let pc = str_chars(path);
    let ghost views = defs@.map_values(|d: CharacteristicDef| def_view(d));
    let mut n: usize = defs.len();
    assert(views.take(n as int) =~= views);
    while n > 0
        invariant
            n <= defs@.len(),
            views == defs@.map_values(|d: CharacteristicDef| def_view(d)),
            pc@ == path@,
            last_with_path(views, path@) == last_with_path(views.take(n as int), path@),
        decreases n,
    {
        let u = str_chars(defs[n - 1].path.as_str());
        proof {
            assert(views.take(n as int).drop_last() =~= views.take(n - 1));
            assert(views.take(n as int).last() == def_view(defs@[n - 1]));
        }
        if chars_eq(u.as_slice(), pc.as_slice()) {
            return Some(n - 1);
        }
        n -= 1;
    }
    None
}

/// The BLE advertisement: the advertised name and the service UUID.
#[derive(Debug, Clone)]
pub struct Advertisement {
    local_name: String,
    service_uuids: Vec<String>,
}

impl Advertisement {
    pub closed spec fn name_spec(&self) -> Seq<char> {
        self.local_name@
    }

    pub closed spec fn uuids_spec(&self) -> Seq<Seq<char>> {
        string_views(self.service_uuids@)
    }

    /// Advertise `local_name` with the one service UUID.
    pub fn new(local_name: &str, service_uuid: &str) -> (r: Self)
        ensures
            r.name_spec() == local_name@,
            r.uuids_spec() == seq![service_uuid@],
    {
        let mut uuids: Vec<String> = Vec::new();
        uuids.push(String::from_str(service_uuid));
        assert(string_views(uuids@) =~= seq![service_uuid@]);
        Advertisement { local_name: String::from_str(local_name), service_uuids: uuids }
    }

    /// BlueZ no longer uses the advertisement; nothing is held for it.
    pub fn release(&self) {
    }

    /// The advertising type.
    pub fn type_(&self) -> (r: &'static str)
        ensures
            r@ == ADVERTISEMENT_TYPE@,
    {
        ADVERTISEMENT_TYPE
    }

    /// The advertised service UUIDs.
    pub fn service_uuids(&self) -> (r: Vec<String>)
        ensures
            string_views(r@) == self.uuids_spec(),
    {
        let mut out: Vec<String> = Vec::new();
        let mut i: usize = 0;
        while i < self.service_uuids.len()
            invariant
                i <= self.service_uuids@.len(),
                string_views(out@) == string_views(self.service_uuids@).take(i as int),
            decreases self.service_uuids@.len() - i,
        {
            let ghost prev = string_views(out@);
            let u = self.service_uuids[i].clone();
            assert(u@ == self.service_uuids@[i as int]@);
            out.push(u);
            assert(string_views(out@) =~= prev.push(u@));
            assert(string_views(out@) =~= string_views(self.service_uuids@).take(i + 1));
            i += 1;
        }
        assert(string_views(self.service_uuids@).take(i as int) =~= string_views(self.service_uuids@));
        out
    }

    /// The advertised name.
    pub fn local_name(&self) -> (r: &str)
        ensures
            r@ == self.name_spec(),
    {
        self.local_name.as_str()
    }
}

/// A character trimmed from the device model text.
pub open spec fn model_junk(c: char) -> bool {
    c == '\0' || c == '\n' || c == '\r'
}

/// Number of leading characters trimmed from the device model text.
pub open spec fn junk_before(s: Seq<char>) -> nat
    decreases s.len(),
{
    if s.len() > 0 && model_junk(s[0]) {
        1 + junk_before(s.drop_first())
    } else {
        0
    }
}

/// Number of trailing characters trimmed from the device model text.
pub open spec fn junk_after(s: Seq<char>) -> nat
    decreases s.len(),
{
    if s.len() > 0 && model_junk(s.last()) {
        1 + junk_after(s.drop_last())
    } else {
        0
    }
}

/// The device model shown: the model file's text without leading and trailing NUL, line
/// feed and carriage return characters, or `unknown` when it could not be read.
pub open spec fn device_model_spec(contents: Option<Seq<char>>) -> Seq<char> {
    match contents {
        Some(s) => {
            let t = s.skip(junk_before(s) as int);
            t.take(t.len() - junk_after(t))
        },
        None => UNKNOWN_MODEL@,
    }
}

proof fn lemma_junk_before(s: Seq<char>, i: int)
    requires
        0 <= i <= s.len(),
        forall|k: int| 0 <= k < i ==> model_junk(#[trigger] s[k]),
        i == s.len() || !model_junk(s[i]),
    ensures
        junk_before(s) == i,
    decreases s.len(),
{
    if i > 0 {
        lemma_junk_before(s.drop_first(), i - 1);
    }
}

proof fn lemma_junk_after(s: Seq<char>, n: int)
    requires
        0 <= n <= s.len(),
        forall|k: int| n <= k < s.len() ==> model_junk(#[trigger] s[k]),
        n == 0 || !model_junk(s[n - 1]),
    ensures
        junk_after(s) == s.len() - n,
    decreases s.len(),
{
    if n < s.len() {
        lemma_junk_after(s.drop_last(), n);
    }
}

fn is_model_junk(c: char) -> (r: bool)
    ensures
        r == model_junk(c),
{
    c == '\0' || c == '\n' || c == '\r'
}

/// The device model shown, from the text of `/proc/device-tree/model` if it was read.
pub fn device_model_text(contents: Option<&str>) -> (r: String)
    ensures
        r@ == device_model_spec(
            match contents {
                Some(s) => Some(s@),
                None => None,
            },
        ),
{
    match contents {
        None => String::from_str(UNKNOWN_MODEL),
        Some(s) => {
            let c = str_chars(s);
            let mut i: usize = 0;
            while i < c.len() && is_model_junk(c[i])
                invariant
                    i <= c@.len(),
                    forall|k: int| 0 <= k < i ==> model_junk(#[trigger] c@[k]),
                decreases c@.len() - i,
            {
                i += 1;
            }
            proof {
                lemma_junk_before(c@, i as int);
            }
            let t = vstd::slice::slice_subrange(c.as_slice(), i, c.len());
            assert(t@ =~= c@.skip(i as int));
            let mut n: usize = t.len();
            while n > 0 && is_model_junk(t[n - 1])
                invariant
                    n <= t@.len(),
                    forall|k: int| n <= k < t@.len() ==> model_junk(#[trigger] t@[k]),
                decreases n,
            {
                n -= 1;
            }
            proof {
                lemma_junk_after(t@, n as int);
            }
            let out = vstd::slice::slice_subrange(t, 0, n);
            assert(out@ =~= t@.take(n as int));
            string_from_chars(out)
        },
    }
}


/// Every listed characteristic has a UUID BlueZ accepts.
pub open spec fn all_uuids_ok(es: Seq<CharEntry>) -> bool {
    forall|k: int| 0 <= k < es.len() ==> (#[trigger] uuid_of(es[k].raw)) is Ok
}

proof fn lemma_all_uuids_ok_concat(a: Seq<CharEntry>, b: Seq<CharEntry>)
    ensures
        all_uuids_ok(a + b) <==> all_uuids_ok(a) && all_uuids_ok(b),
{
    if all_uuids_ok(a + b) {
        assert forall|k: int| 0 <= k < a.len() implies (#[trigger] uuid_of(a[k].raw)) is Ok by {
            assert((a + b)[k] == a[k]);
        }
        assert forall|k: int| 0 <= k < b.len() implies (#[trigger] uuid_of(b[k].raw)) is Ok by {
            assert((a + b)[a.len() + k] == b[k]);
        }
    }
    if all_uuids_ok(a) && all_uuids_ok(b) {
        assert forall|k: int| 0 <= k < (a + b).len() implies (#[trigger] uuid_of((a + b)[k].raw)) is Ok by {
            if k < a.len() {
                assert((a + b)[k] == a[k]);
            } else {
                assert((a + b)[k] == b[k - a.len()]);
            }
        }
    }
}

proof fn lemma_plan_fold_ok(acc: Result<Seq<CharView>, (UuidError, Seq<char>)>, es: Seq<CharEntry>)
    ensures
        (plan_fold_acc(acc, es) is Ok) <==> (acc is Ok && all_uuids_ok(es)),
        plan_fold_acc(acc, es) is Ok ==> plan_fold_acc(acc, es)->Ok_0.len() == acc->Ok_0.len() + es.len(),
    decreases es.len(),
{
    if es.len() > 0 {
        let init = es.drop_last();
        lemma_plan_fold_ok(acc, init);
        assert(es =~= init + seq![es.last()]);
        lemma_all_uuids_ok_concat(init, seq![es.last()]);
        assert(seq![es.last()][0] == es.last());
    }
}

proof fn lemma_hex_uuid(c: Seq<char>)
    requires
        all_hex(c),
    ensures
        (uuid_of(c) is Ok) <==> (c.len() == 12 || c.len() == 32),
{
    assert(is_ascii_chars(c)) by {
        assert forall|i: int| 0 <= i < c.len() implies '\0' <= #[trigger] c[i] <= '\u{7f}' by {
            assert(is_hex_digit(c[i]));
        }
    }
    is_ascii_chars_encode_utf8(c);
    let b = encode_utf8(c);
    assert forall|i: int| 0 <= i < b.len() implies is_hex_byte(#[trigger] b[i]) by {
        assert(is_hex_digit(c[i]));
        assert(c[i] as u8 == b[i]);
    }
}

proof fn lemma_upper_hex_len_bound(n: nat, w: nat, k: nat)
    requires
        n < pow16(k),
        w <= k,
    ensures
        upper_hex(n, w).len() <= k,
    decreases k,
{
    if n == 0 && w == 0 {
    } else if k == 0 {
        assert(pow16(0) == 1);
    } else {
        let w2: nat = if w > 0 { (w - 1) as nat } else { 0 };
        assert(pow16(k) == 16 * pow16((k - 1) as nat));
        assert(n / 16 < pow16((k - 1) as nat)) by (nonlinear_arith)
            requires
                n < 16 * pow16((k - 1) as nat),
        ;
        lemma_upper_hex_len_bound(n / 16, w2, (k - 1) as nat);
    }
}

proof fn lemma_pow16_16()
    ensures
        pow16(4) == 65536,
        pow16(16) == 0x1_0000_0000_0000_0000,
{
    reveal_with_fuel(pow16, 17);
}

/// The custom UUID made of an 8-character hexadecimal prefix and the suffix of the item
/// at 0-based index `i` is accepted exactly for the first 65535 items.
proof fn lemma_custom_uuid(prefix: Seq<char>, i: nat)
    requires
        all_hex(prefix),
        prefix.len() == 8,
        i < 0x1_0000_0000_0000_0000 - 1,
    ensures
        (uuid_of(prefix + lower_suffix(i)) is Ok) <==> i < 65535,
{
    lemma_pow16_16();
    lemma_upper_hex(i + 1, 4);
    lemma_upper_hex_len_bound(i + 1, 4, 16);
    let u = upper_hex(i + 1, 4);
    let l = lower_suffix(i);
    assert(all_hex(l)) by {
        assert forall|k: int| 0 <= k < l.len() implies is_hex_digit(#[trigger] l[k]) by {
            assert(l[k] == lower_char(u[k]));
            assert('0' <= u[k] <= '9' || 'A' <= u[k] <= 'F');
        }
    }
    let raw = prefix + l;
    assert(all_hex(raw)) by {
        assert forall|k: int| 0 <= k < raw.len() implies is_hex_digit(#[trigger] raw[k]) by {
            if k < 8 {
                assert(raw[k] == prefix[k]);
            } else {
                assert(raw[k] == l[k - 8]);
            }
        }
    }
    lemma_hex_uuid(raw);
}

proof fn lemma_info_entries(info: Seq<CustomInfoItem>)
    requires
        info.len() <= usize::MAX,
    ensures
        info_entries(info).len() == 2 * info.len(),
        all_uuids_ok(info_entries(info)) <==> info.len() <= 65535,
    decreases info.len(),
{
    if info.len() > 0 {
        let init = info.drop_last();
        let i = (info.len() - 1) as nat;
        lemma_info_entries(init);
        reveal_strlit("FD2BCCCA");
        reveal_strlit("FD2BCCCB");
        lemma_custom_uuid(CUSTOM_INFO_LABEL_PREFIX@, i);
        lemma_custom_uuid(CUSTOM_INFO_PREFIX@, i);
        let pair = seq![
            CharEntry {
                raw: CUSTOM_INFO_LABEL_PREFIX@ + lower_suffix(i),
                flags: read_flags(),
                read: Some(encode_utf8(info.last().label@)),
                writable: false,
            },
            CharEntry { raw: CUSTOM_INFO_PREFIX@ + lower_suffix(i), flags: notify_flags(), read: None, writable: false },
        ];
        lemma_all_uuids_ok_concat(info_entries(init), pair);
        assert(pair[0].raw == CUSTOM_INFO_LABEL_PREFIX@ + lower_suffix(i));
        assert(pair[1].raw == CUSTOM_INFO_PREFIX@ + lower_suffix(i));
    }
}

proof fn lemma_command_entries(cmds: Seq<CustomCommandItem>)
    requires
        cmds.len() <= usize::MAX,
    ensures
        command_entries(cmds).len() == cmds.len(),
        all_uuids_ok(command_entries(cmds)) <==> cmds.len() <= 65535,
    decreases cmds.len(),
{
    if cmds.len() > 0 {
        let init = cmds.drop_last();
        let i = (cmds.len() - 1) as nat;
        lemma_command_entries(init);
        reveal_strlit("FD2BCCCC");
        lemma_custom_uuid(CUSTOM_COMMAND_LABEL_PREFIX@, i);
        let one = seq![
            CharEntry {
                raw: CUSTOM_COMMAND_LABEL_PREFIX@ + lower_suffix(i),
                flags: read_flags(),
                read: Some(encode_utf8(cmds.last().label@)),
                writable: false,
            },
        ];
        assert(command_entries(cmds) =~= command_entries(init) + one);
        lemma_all_uuids_ok_concat(command_entries(init), one);
        assert(one[0].raw == CUSTOM_COMMAND_LABEL_PREFIX@ + lower_suffix(i));
    }
}

proof fn lemma_core_entries_ok(name: Seq<char>, model: Seq<char>)
    ensures
        all_uuids_ok(core_entries(name, model)),
        core_entries(name, model).len() == 7,
{
    reveal_strlit("FD2B4448AA0F4A15A62FEB0BE77A0001");
    reveal_strlit("FD2B4448AA0F4A15A62FEB0BE77A0002");
    reveal_strlit("FD2B4448AA0F4A15A62FEB0BE77A0003");
    reveal_strlit("FD2B4448AA0F4A15A62FEB0BE77A0004");
    reveal_strlit("FD2B4448AA0F4A15A62FEB0BE77A0005");
    reveal_strlit("FD2B4448AA0F4A15A62FEB0BE77A0007");
    reveal_strlit("FD2B4448AA0F4A15A62FEB0BE77A0006");
    lemma_hex_uuid(SERVICE_NAME@);
    lemma_hex_uuid(DEVICE_MODEL@);
    lemma_hex_uuid(WIFI_NAME@);
    lemma_hex_uuid(IP_ADDRESS@);
    lemma_hex_uuid(INPUT@);
    lemma_hex_uuid(INPUT_SEP@);
    lemma_hex_uuid(NOTIFY_MESSAGE@);
    let es = core_entries(name, model);
    assert forall|k: int| 0 <= k < es.len() implies (#[trigger] uuid_of(es[k].raw)) is Ok by {
        if k == 0 {
        } else if k == 1 {
        } else if k == 2 {
        } else if k == 3 {
        } else if k == 4 {
        } else if k == 5 {
        } else {
        }
    }
}

proof fn lemma_custom_constants_ok()
    ensures
        uuid_of(CUSTOM_INFO_COUNT@) is Ok,
        uuid_of(CUSTOM_COMMAND_COUNT@) is Ok,
        uuid_of(CUSTOM_COMMAND_INPUT@) is Ok,
        uuid_of(CUSTOM_COMMAND_NOTIFY@) is Ok,
{
    reveal_strlit("FD2BCCAA0000");
    reveal_strlit("FD2BCCAC0000");
    reveal_strlit("FD2B4448AA0F4A15A62FEB0BE77A0008");
    reveal_strlit("FD2B4448AA0F4A15A62FEB0BE77A0009");
    lemma_hex_uuid(CUSTOM_INFO_COUNT@);
    lemma_hex_uuid(CUSTOM_COMMAND_COUNT@);
    lemma_hex_uuid(CUSTOM_COMMAND_INPUT@);
    lemma_hex_uuid(CUSTOM_COMMAND_NOTIFY@);
}

/// The application can always be built without a custom configuration (7
/// characteristics); with one, exactly when it has at most 65535 info items and 65535
/// commands (the 4-hex suffixes run out after that), and it then offers
/// 11 + 2 x info items + commands characteristics.
pub proof fn law_gatt_plan_accepts(name: Seq<char>, model: Seq<char>, custom: Option<CustomConfigFile>)
    requires
        custom matches Some(c) ==> c.info@.len() <= usize::MAX && c.commands@.len() <= usize::MAX,
    ensures
        custom is None ==> (gatt_plan_spec(name, model, custom) matches Ok(v) && v.len() == 7),
        custom matches Some(c) ==> ((gatt_plan_spec(name, model, custom) is Ok) <==> (c.info@.len() <= 65535
            && c.commands@.len() <= 65535)),
        custom matches Some(c) ==> (gatt_plan_spec(name, model, custom) matches Ok(v) ==> v.len() == 11 + 2
            * c.info@.len() + c.commands@.len()),
{
    let ce = core_entries(name, model);
    lemma_core_entries_ok(name, model);
    lemma_plan_fold_ok(Ok(Seq::empty()), gatt_entries(name, model, custom));
    match custom {
        None => {
            assert(gatt_entries(name, model, custom) =~= ce);
        },
        Some(c) => {
            lemma_custom_constants_ok();
            lemma_info_entries(c.info@);
            lemma_command_entries(c.commands@);
            let e0 = seq![
                CharEntry {
                    raw: CUSTOM_INFO_COUNT@,
                    flags: read_flags(),
                    read: Some(encode_utf8(decimal(c.info@.len()))),
                    writable: false,
                },
            ];
            let e1 = seq![
                CharEntry {
                    raw: CUSTOM_COMMAND_COUNT@,
                    flags: read_flags(),
                    read: Some(encode_utf8(decimal(c.commands@.len()))),
                    writable: false,
                },
            ];
            let e2 = seq![
                CharEntry { raw: CUSTOM_COMMAND_INPUT@, flags: write_flags(), read: None, writable: true },
                CharEntry { raw: CUSTOM_COMMAND_NOTIFY@, flags: notify_flags(), read: None, writable: false },
            ];
            let ie = info_entries(c.info@);
            let me = command_entries(c.commands@);
            assert(all_uuids_ok(e0)) by {
                assert(e0[0].raw == CUSTOM_INFO_COUNT@);
            }
            assert(all_uuids_ok(e1)) by {
                assert(e1[0].raw == CUSTOM_COMMAND_COUNT@);
            }
            assert(all_uuids_ok(e2)) by {
                assert(e2[0].raw == CUSTOM_COMMAND_INPUT@);
                assert(e2[1].raw == CUSTOM_COMMAND_NOTIFY@);
            }
            lemma_all_uuids_ok_concat(e0, ie);
            lemma_all_uuids_ok_concat(e0 + ie, e1);
            lemma_all_uuids_ok_concat(e0 + ie + e1, me);
            lemma_all_uuids_ok_concat(e0 + ie + e1 + me, e2);
            assert(custom_entries(c) =~= e0 + ie + e1 + me + e2);
            lemma_all_uuids_ok_concat(ce, custom_entries(c));
        },
    }
}

proof fn lemma_plan_fold_at(acc: Seq<CharView>, es: Seq<CharEntry>, k: int)
    requires
        plan_fold_acc(Ok(acc), es) is Ok,
        0 <= k < es.len(),
    ensures
        plan_fold_acc(Ok(acc), es)->Ok_0.len() == acc.len() + es.len(),
        plan_fold_acc(Ok(acc), es)->Ok_0[acc.len() + k] == (CharView {
            path: char_path((acc.len() + k) as nat),
            uuid: uuid_of(es[k].raw)->Ok_0,
            flags: es[k].flags,
            read: es[k].read,
            writable: es[k].writable,
        }),
    decreases es.len(),
{
    let init = es.drop_last();
    lemma_plan_fold_ok(Ok(acc), es);
    lemma_plan_fold_ok(Ok(acc), init);
    let prev = plan_fold_acc(Ok(acc), init);
    if k < es.len() - 1 {
        assert(init[k] == es[k]);
        lemma_plan_fold_at(acc, init, k);
    }
}

proof fn lemma_command_entries_at(cmds: Seq<CustomCommandItem>, k: int)
    requires
        0 <= k < cmds.len(),
    ensures
        command_entries(cmds).len() == cmds.len(),
        command_entries(cmds)[k] == (CharEntry {
            raw: CUSTOM_COMMAND_LABEL_PREFIX@ + lower_suffix(k as nat),
            flags: read_flags(),
            read: Some(encode_utf8(cmds[k].label@)),
            writable: false,
        }),
    decreases cmds.len(),
{
    let init = cmds.drop_last();
    let i = (cmds.len() - 1) as nat;
    let one = CharEntry {
        raw: CUSTOM_COMMAND_LABEL_PREFIX@ + lower_suffix(i),
        flags: read_flags(),
        read: Some(encode_utf8(cmds.last().label@)),
        writable: false,
    };
    assert(command_entries(cmds) == command_entries(init).push(one));
    if init.len() > 0 {
        if k < init.len() {
            lemma_command_entries_at(init, k);
            assert(init[k] == cmds[k]);
        } else {
            lemma_command_entries_at(init, 0);
        }
    }
}

proof fn lemma_info_entries_at(info: Seq<CustomInfoItem>, k: int)
    requires
        0 <= k < info.len(),
    ensures
        info_entries(info).len() == 2 * info.len(),
        info_entries(info)[2 * k] == (CharEntry {
            raw: CUSTOM_INFO_LABEL_PREFIX@ + lower_suffix(k as nat),
            flags: read_flags(),
            read: Some(encode_utf8(info[k].label@)),
            writable: false,
        }),
        info_entries(info)[2 * k + 1] == (CharEntry {
            raw: CUSTOM_INFO_PREFIX@ + lower_suffix(k as nat),
            flags: notify_flags(),
            read: None,
            writable: false,
        }),
    decreases info.len(),
{
    let init = info.drop_last();
    let i = (info.len() - 1) as nat;
    let pair = seq![
        CharEntry {
            raw: CUSTOM_INFO_LABEL_PREFIX@ + lower_suffix(i),
            flags: read_flags(),
            read: Some(encode_utf8(info.last().label@)),
            writable: false,
        },
        CharEntry { raw: CUSTOM_INFO_PREFIX@ + lower_suffix(i), flags: notify_flags(), read: None, writable: false },
    ];
    assert(info_entries(info) == info_entries(init) + pair);
    if init.len() > 0 {
        if k < init.len() {
            lemma_info_entries_at(init, k);
            assert(init[k] == info[k]);
        } else {
            lemma_info_entries_at(init, 0);
        }
    }
}

/// What a client reads: the service name and device model from the first two
/// characteristics; for the custom info item at 0-based index `k`, the characteristic
/// `FD2BCCCA<suffix>` gives its label's UTF-8 and `FD2BCCCB<suffix>` (its value, sent by
/// notification) has no reader; for the custom command at index `k`, the characteristic
/// `FD2BCCCC<suffix>` gives its label's UTF-8 (never the command line).
pub proof fn law_gatt_read_values(name: Seq<char>, model: Seq<char>, c: CustomConfigFile)
    ensures
        gatt_plan_spec(name, model, None) matches Ok(v) ==> v[0].read == Some(encode_utf8(name)) && v[1].read
            == Some(encode_utf8(model)),
        gatt_plan_spec(name, model, Some(c)) matches Ok(v) ==> {
            &&& v[0].read == Some(encode_utf8(name))
            &&& v[1].read == Some(encode_utf8(model))
            &&& forall|k: int|
                0 <= k < c.info@.len() ==> {
                    &&& (#[trigger] v[8 + 2 * k]).uuid == uuid_of(
                        CUSTOM_INFO_LABEL_PREFIX@ + lower_suffix(k as nat),
                    )->Ok_0
                    &&& v[8 + 2 * k].read == Some(encode_utf8(c.info@[k].label@))
                    &&& v[9 + 2 * k].uuid == uuid_of(CUSTOM_INFO_PREFIX@ + lower_suffix(k as nat))->Ok_0
                    &&& v[9 + 2 * k].read is None
                }
            &&& forall|k: int|
                0 <= k < c.commands@.len() ==> {
                    &&& (#[trigger] v[9 + 2 * c.info@.len() + k]).uuid == uuid_of(
                        CUSTOM_COMMAND_LABEL_PREFIX@ + lower_suffix(k as nat),
                    )->Ok_0
                    &&& v[9 + 2 * c.info@.len() + k].read == Some(encode_utf8(c.commands@[k].label@))
                }
        },
{
    let ce = core_entries(name, model);
    assert(gatt_entries(name, model, None) =~= ce);
    if gatt_plan_spec(name, model, None) is Ok {
        lemma_plan_fold_at(Seq::empty(), ce, 0);
        lemma_plan_fold_at(Seq::empty(), ce, 1);
    }
    let all = gatt_entries(name, model, Some(c));
    if gatt_plan_spec(name, model, Some(c)) is Ok {
        let v = gatt_plan_spec(name, model, Some(c))->Ok_0;
        let ni = c.info@.len();
        let nc = c.commands@.len();
        let e0 = CharEntry {
            raw: CUSTOM_INFO_COUNT@,
            flags: read_flags(),
            read: Some(encode_utf8(decimal(ni))),
            writable: false,
        };
        let e1 = CharEntry {
            raw: CUSTOM_COMMAND_COUNT@,
            flags: read_flags(),
            read: Some(encode_utf8(decimal(nc))),
            writable: false,
        };
        let ie = info_entries(c.info@);
        let me = command_entries(c.commands@);
        if ni > 0 {
            lemma_info_entries_at(c.info@, 0);
        } else {
            assert(ie.len() == 0);
        }
        if nc > 0 {
            lemma_command_entries_at(c.commands@, 0);
        } else {
            assert(me.len() == 0);
        }
        assert(all == ce + (seq![e0] + ie + seq![e1] + me + seq![
            CharEntry { raw: CUSTOM_COMMAND_INPUT@, flags: write_flags(), read: None, writable: true },
            CharEntry { raw: CUSTOM_COMMAND_NOTIFY@, flags: notify_flags(), read: None, writable: false },
        ]));
        lemma_plan_fold_at(Seq::empty(), all, 0);
        lemma_plan_fold_at(Seq::empty(), all, 1);
        assert forall|k: int| 0 <= k < ni implies {
            &&& (#[trigger] v[8 + 2 * k]).uuid == uuid_of(CUSTOM_INFO_LABEL_PREFIX@ + lower_suffix(k as nat))->Ok_0
            &&& v[8 + 2 * k].read == Some(encode_utf8(c.info@[k].label@))
            &&& v[9 + 2 * k].uuid == uuid_of(CUSTOM_INFO_PREFIX@ + lower_suffix(k as nat))->Ok_0
            &&& v[9 + 2 * k].read is None
        } by {
            lemma_info_entries_at(c.info@, k);
            assert(all[8 + 2 * k] == ie[2 * k]);
            assert(all[9 + 2 * k] == ie[2 * k + 1]);
            lemma_plan_fold_at(Seq::empty(), all, 8 + 2 * k);
            lemma_plan_fold_at(Seq::empty(), all, 9 + 2 * k);
        }
        assert forall|k: int| 0 <= k < nc implies {
            &&& (#[trigger] v[9 + 2 * c.info@.len() + k]).uuid == uuid_of(
                CUSTOM_COMMAND_LABEL_PREFIX@ + lower_suffix(k as nat),
            )->Ok_0
            &&& v[9 + 2 * c.info@.len() + k].read == Some(encode_utf8(c.commands@[k].label@))
        } by {
            lemma_command_entries_at(c.commands@, k);
            assert(all[9 + 2 * ni + k] == me[k]);
            lemma_plan_fold_at(Seq::empty(), all, 9 + 2 * ni + k);
        }
    }
}

} // verus!
