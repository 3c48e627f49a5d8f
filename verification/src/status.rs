//! Status characteristics: the Wi-Fi network name and the IP addresses shown to the
//! client, decided from the output of `nmcli`, `iw` and `ip -j -4 addr show`.
use vstd::prelude::*;
use vstd::string::StringExecFns;
use crate::text::{
    split_seq, lines, lines_chars, trim, trim_chars, char_views, str_chars, string_from_chars,
    split_chars, chars_eq, starts_with_chars, join_with, join_chars, utf8_lossy, utf8_lossy_text,
    lemma_split_from_last_clean,
};
use crate::wifi::has_prefix;

verus! {

/// Shown when no Wi-Fi network name is found.
pub const WIFI_NAME_UNAVAILABLE: &'static str = "Not available";

/// Shown when no usable IPv4 address is found.
pub const NO_IP_ADDRESS: &'static str = "--";

/// Seconds allowed to each status command.
pub const STATUS_EXEC_TIMEOUT_SECS: u64 = 3;

/// Cap on the output kept from each status command.
pub const STATUS_MAX_OUTPUT_BYTES: usize = 32 * 1024;

/// The SSID of the active network in `nmcli -t -f ACTIVE,SSID dev wifi` text lines from
/// `i` on: the first line `yes:<ssid>` with a non-empty SSID.
pub open spec fn nmcli_active_ssid(ls: Seq<Seq<char>>, i: int) -> Option<Seq<char>>
    decreases ls.len() - i,
{
    if i < 0 || i >= ls.len() {
        None
    } else {
        let parts = split_seq(ls[i], seq![':']);
        let active = parts[0];
        let ssid = if parts.len() >= 2 {
            ls[i].skip(active.len() + 1int)
        } else {
            Seq::empty()
        };
        if active == "yes"@ && ssid.len() > 0 {
            Some(ssid)
        } else {
            nmcli_active_ssid(ls, i + 1)
        }
    }
}

/// The SSID in `iw dev <iface> link` text lines from `i` on: the first line starting
/// with `SSID:` whose trimmed remainder is not empty.
pub open spec fn iw_ssid(ls: Seq<Seq<char>>, i: int) -> Option<Seq<char>>
    decreases ls.len() - i,
{
    if i < 0 || i >= ls.len() {
        None
    } else if has_prefix(ls[i], "SSID:"@) && trim(ls[i].skip(5)).len() > 0 {
        Some(trim(ls[i].skip(5)))
    } else {
        iw_ssid(ls, i + 1)
    }
}

/// A line of `nmcli -t -f ACTIVE,SSID dev wifi` for the active network with a name:
/// `yes:` followed by a non-empty SSID.
pub open spec fn active_named_line(line: Seq<char>) -> bool {
    line.len() > 4 && line.take(3) == "yes"@ && line[3] == ':'
}

/// How a line is read: the `yes` test and the SSID after the first `:` single out exactly
/// the lines `yes:<ssid>` with a non-empty SSID, and take the text after `yes:`.
proof fn lemma_nmcli_line(line: Seq<char>)
    ensures
        ({
            let parts = split_seq(line, seq![':']);
            let active = parts[0];
            let ssid = if parts.len() >= 2 {
                line.skip(active.len() + 1int)
            } else {
                Seq::empty()
            };
            &&& (active == "yes"@ && ssid.len() > 0) <==> active_named_line(line)
            &&& active_named_line(line) ==> ssid == line.skip(4)
        }),
{
    reveal_strlit("yes");
    let sep = seq![':'];
    crate::text::lemma_find_from_bounds(line, sep, 0);
    lemma_split_from_last_clean(line, sep, 0);
    let parts = split_seq(line, sep);
    if active_named_line(line) {
        assert(line.subrange(3, 4) =~= sep);
        assert(crate::text::occurs_at(line, sep, 3));
    }
    match crate::text::find_from(line, sep, 0) {
        Some(p) => {
            let rest = crate::text::split_from(line, sep, p + 1);
            lemma_split_from_last_clean(line, sep, p + 1);
            assert(parts == seq![line.subrange(0, p)] + rest);
            assert(parts[0] == line.subrange(0, p));
            assert(parts.len() >= 2);
            if active_named_line(line) {
                assert(p <= 3);
                if p < 3 {
                    assert(line.subrange(p, p + 1)[0] == line[p]);
                    assert(line[p] == line.take(3)[p]);
                    assert(false);
                }
                assert(line.subrange(0, 3) =~= line.take(3));
            }
            if parts[0] == "yes"@ {
                assert(p == 3);
                assert(line.take(3) =~= line.subrange(0, 3));
                assert(line.subrange(3, 4)[0] == line[3]);
            }
        },
        None => {
            assert(parts =~= seq![line.subrange(0, line.len() as int)]);
        },
    }
}

proof fn lemma_nmcli_first_from(ls: Seq<Seq<char>>, k: int, i: int)
    requires
        0 <= k <= i < ls.len(),
        active_named_line(ls[i]),
        forall|j: int| 0 <= j < i ==> !active_named_line(#[trigger] ls[j]),
    ensures
        nmcli_active_ssid(ls, k) == Some(ls[i].skip(4)),
    decreases i - k,
{
    lemma_nmcli_line(ls[k]);
    if k < i {
        lemma_nmcli_first_from(ls, k + 1, i);
    }
}

proof fn lemma_nmcli_none_from(ls: Seq<Seq<char>>, k: int)
    requires
        0 <= k,
        forall|j: int| 0 <= j < ls.len() ==> !active_named_line(#[trigger] ls[j]),
    ensures
        nmcli_active_ssid(ls, k) is None,
    decreases ls.len() - k,
{
    if k < ls.len() {
        lemma_nmcli_line(ls[k]);
        lemma_nmcli_none_from(ls, k + 1);
    }
}

/// The network name `nmcli` reports is the SSID of the first line `yes:<ssid>` with a
/// non-empty SSID, whatever lines (inactive networks, hidden ones with an empty SSID)
/// come before it; there is none when no line is of that form.
pub proof fn law_nmcli_first_active_ssid(ls: Seq<Seq<char>>)
    ensures
        forall|i: int|
            0 <= i < ls.len() && active_named_line(#[trigger] ls[i]) && (forall|j: int|
                0 <= j < i ==> !active_named_line(#[trigger] ls[j])) ==> nmcli_active_ssid(ls, 0) == Some(
                ls[i].skip(4),
            ),
        (forall|j: int| 0 <= j < ls.len() ==> !active_named_line(#[trigger] ls[j])) ==> nmcli_active_ssid(
            ls,
            0,
        ) is None,
{
    assert forall|i: int|
        0 <= i < ls.len() && active_named_line(#[trigger] ls[i]) && (forall|j: int|
            0 <= j < i ==> !active_named_line(#[trigger] ls[j])) implies nmcli_active_ssid(ls, 0) == Some(
        ls[i].skip(4),
    ) by {
        lemma_nmcli_first_from(ls, 0, i);
    }
    if forall|j: int| 0 <= j < ls.len() ==> !active_named_line(#[trigger] ls[j]) {
        lemma_nmcli_none_from(ls, 0);
    }
}

/// The active SSID reported by `nmcli` (stdout, decoded lossily).
pub fn ssid_from_nmcli(stdout: &[u8]) -> (r: Option<String>)
    ensures
        match nmcli_active_ssid(lines(utf8_lossy_text(stdout@)), 0) {
            Some(s) => r matches Some(v) && v@ == s,
            None => r is None,
        },
{
    let text = utf8_lossy(stdout);
    let chars = str_chars(text.as_str());
    ssid_from_nmcli_text(chars.as_slice())
}

/// The active SSID in `nmcli` text.
pub fn ssid_from_nmcli_text(text: &[char]) -> (r: Option<String>)
    ensures
        match nmcli_active_ssid(lines(text@), 0) {
            Some(s) => r matches Some(v) && v@ == s,
            None => r is None,
        },
{
    let ls = lines_chars(text);
    let colon = vec![':'];
    assert(colon@ =~= seq![':']);
    let yes = vec!['y', 'e', 's'];
    proof {
        reveal_strlit("yes");
    }
    assert(yes@ =~= "yes"@);
    let mut i: usize = 0;
    while i < ls.len()
        invariant
            i <= ls@.len(),
            char_views(ls@) == lines(text@),
            colon@ == seq![':'],
            yes@ == "yes"@,
            nmcli_active_ssid(lines(text@), 0) == nmcli_active_ssid(lines(text@), i as int),
        decreases ls@.len() - i,
    {
        let line = ls[i].as_slice();
        assert(line@ == lines(text@)[i as int]);
        let parts = split_chars(line, colon.as_slice());
        proof {
            lemma_split_from_last_clean(line@, seq![':'], 0);
        }
        let active = &parts[0];
        assert(active@ == split_seq(line@, seq![':'])[0]);
        let ssid: Vec<char> = if parts.len() >= 2 {
            let n = line.len();
            proof {
                crate::text::lemma_find_from_bounds(line@, seq![':'], 0);
                assert(crate::text::find_from(line@, seq![':'], 0) is Some);
                let p = crate::text::find_from(line@, seq![':'], 0)->0;
                assert(split_seq(line@, seq![':'])[0] == line@.subrange(0, p));
                assert(active@.len() == p);
                assert(p + 1 <= n);
            }
            let v = vstd::slice::slice_to_vec(vstd::slice::slice_subrange(line, active.len() + 1, line.len()));
            assert(v@ =~= line@.skip(active@.len() + 1int));
            v
        } else {
            Vec::new()
        };
        if chars_eq(active.as_slice(), yes.as_slice()) && ssid.len() > 0 {
            return Some(string_from_chars(ssid.as_slice()));
        }
        proof {
            assert(ssid@ =~= (if split_seq(line@, seq![':']).len() >= 2 {
                line@.skip(active@.len() + 1int)
            } else {
                Seq::<char>::empty()
            }));
        }
        i += 1;
    }
    None
}

/// The SSID reported by `iw` (stdout, decoded lossily).
pub fn ssid_from_iw(stdout: &[u8]) -> (r: Option<String>)
    ensures
        match iw_ssid(lines(utf8_lossy_text(stdout@)), 0) {
            Some(s) => r matches Some(v) && v@ == s,
            None => r is None,
        },
{
    let text = utf8_lossy(stdout);
    let chars = str_chars(text.as_str());
    ssid_from_iw_text(chars.as_slice())
}

/// The SSID in `iw` text.
pub fn ssid_from_iw_text(text: &[char]) -> (r: Option<String>)
    ensures
        match iw_ssid(lines(text@), 0) {
            Some(s) => r matches Some(v) && v@ == s,
            None => r is None,
        },
{
    let ls = lines_chars(text);
    let key = vec!['S', 'S', 'I', 'D', ':'];
    proof {
        reveal_strlit("SSID:");
    }
    assert(key@ =~= "SSID:"@);
    let mut i: usize = 0;
    while i < ls.len()
        invariant
            i <= ls@.len(),
            char_views(ls@) == lines(text@),
            key@ == "SSID:"@,
            key@.len() == 5,
            iw_ssid(lines(text@), 0) == iw_ssid(lines(text@), i as int),
        decreases ls@.len() - i,
    {
        let line = ls[i].as_slice();
        assert(line@ == lines(text@)[i as int]);
        if starts_with_chars(line, key.as_slice()) {
            let rest = vstd::slice::slice_subrange(line, 5, line.len());
            assert(rest@ =~= line@.skip(5));
            let t = trim_chars(rest);
            if t.len() > 0 {
                return Some(string_from_chars(t.as_slice()));
            }
        }
        i += 1;
    }
    None
}

/// The Wi-Fi name shown once `nmcli` found nothing: what `iw` reports, if it ran and
/// reported an SSID, else `Not available`.
pub fn wifi_name_from_iw(iw_stdout: Option<&[u8]>) -> (r: String)
    ensures
        r@ == match iw_stdout {
            Some(out) => match iw_ssid(lines(utf8_lossy_text(out@)), 0) {
                Some(s) => s,
                None => WIFI_NAME_UNAVAILABLE@,
            },
            None => WIFI_NAME_UNAVAILABLE@,
        },
{
    match iw_stdout {
        Some(out) => match ssid_from_iw(out) {
            Some(s) => s,
            None => String::from_str(WIFI_NAME_UNAVAILABLE),
        },
        None => String::from_str(WIFI_NAME_UNAVAILABLE),
    }
}


/// One `addr_info` entry of `ip -j -4 addr show`: its `family` and `local` strings.
#[derive(Debug, Clone)]
pub struct AddrInfo {
    pub family: Option<String>,
    pub local: Option<String>,
}

/// One interface of `ip -j -4 addr show`: its `ifname` string and `addr_info` array.
#[derive(Debug, Clone)]
pub struct IfaceAddrs {
    pub ifname: Option<String>,
    pub addr_info: Option<Vec<AddrInfo>>,
}

/// The text of an optional string.
pub open spec fn opt_text(o: Option<String>) -> Option<Seq<char>> {
    match o {
        Some(s) => Some(s@),
        None => None,
    }
}

/// An `addr_info` entry as plain values.
pub open spec fn addr_view(a: AddrInfo) -> (Option<Seq<char>>, Option<Seq<char>>) {
    (opt_text(a.family), opt_text(a.local))
}

/// An interface entry as plain values.
pub open spec fn iface_view(e: IfaceAddrs) -> (
    Option<Seq<char>>,
    Option<Seq<(Option<Seq<char>>, Option<Seq<char>>)>>,
) {
    (
        opt_text(e.ifname),
        match e.addr_info {
            Some(v) => Some(v@.map_values(|a: AddrInfo| addr_view(a))),
            None => None,
        },
    )
}

/// What `serde_json` reads from `ip -j -4 addr show` output: for each element of the
/// top-level array, its `ifname` string and its `addr_info` array with each entry's
/// `family` and `local` strings (`None` where absent or of another JSON type); `None`
/// when the bytes are not JSON or not an array.
pub uninterp spec fn ip_addr_json(bytes: Seq<u8>) -> Option<
    Seq<(Option<Seq<char>>, Option<Seq<(Option<Seq<char>>, Option<Seq<char>>)>>)>,
>;

/// `serde_json::from_slice::<Value>` and the `as_array`, `get` and `as_str` accessors,
/// converting the interfaces array into plain values. The contract only names the
/// result: what the JSON parser accepts is not restated here.
#[verifier::external_body]
fn decode_ip_addr_json(bytes: &[u8]) -> (r: Option<Vec<IfaceAddrs>>)
    ensures
        match r {
            Some(v) => ip_addr_json(bytes@) == Some(v@.map_values(|e: IfaceAddrs| iface_view(e))),
            None => ip_addr_json(bytes@) is None,
        },
{
    let v: serde_json::Value = serde_json::from_slice(bytes).ok()?;
    let text = |x: &serde_json::Value, k: &str| x.get(k).and_then(|y| y.as_str()).map(|y| y.to_string());
    Some(v.as_array()?.iter().map(|o| IfaceAddrs {
        ifname: text(o, "ifname"),
        addr_info: o.get("addr_info").and_then(|a| a.as_array()).map(|a| a.iter().map(|i| AddrInfo {
            family: text(i, "family"),
            local: text(i, "local"),
        }).collect()),
    }).collect())
}

/// An address shown to the client: not loopback, not link-local.
pub open spec fn usable_local(l: Seq<char>) -> bool {
    l != "127.0.0.1"@ && !has_prefix(l, "169.254."@)
}

/// The usable IPv4 addresses among `infos`, paired with the interface `name`.
pub open spec fn info_pairs(name: Seq<char>, infos: Seq<(Option<Seq<char>>, Option<Seq<char>>)>) -> Seq<
    (Seq<char>, Seq<char>),
>
    decreases infos.len(),
{
    if infos.len() == 0 {
        Seq::empty()
    } else {
        let prev = info_pairs(name, infos.drop_last());
        let info = infos.last();
        if info.0 == Some("inet"@) && info.1 is Some && usable_local(info.1->0) {
            prev.push((name, info.1->0))
        } else {
            prev
        }
    }
}

/// The (interface, address) pairs of the interface entries, in order; `lo` and entries
/// without a name or an address array are skipped.
pub open spec fn addr_pairs(
    entries: Seq<(Option<Seq<char>>, Option<Seq<(Option<Seq<char>>, Option<Seq<char>>)>>)>,
) -> Seq<(Seq<char>, Seq<char>)>
    decreases entries.len(),
{
    if entries.len() == 0 {
        Seq::empty()
    } else {
        let e = entries.last();
        let here = match e.0 {
            Some(n) => if n != "lo"@ {
                match e.1 {
                    Some(infos) => info_pairs(n, infos),
                    None => Seq::empty(),
                }
            } else {
                Seq::empty()
            },
            None => Seq::empty(),
        };
        addr_pairs(entries.drop_last()) + here
    }
}

/// The distinct interface names of `pairs`, in order of first appearance.
pub open spec fn group_names(pairs: Seq<(Seq<char>, Seq<char>)>) -> Seq<Seq<char>>
    decreases pairs.len(),
{
    if pairs.len() == 0 {
        Seq::empty()
    } else {
        let prev = group_names(pairs.drop_last());
        if prev.contains(pairs.last().0) {
            prev
        } else {
            prev.push(pairs.last().0)
        }
    }
}

/// The addresses of interface `name`, in order.
pub open spec fn ips_of(pairs: Seq<(Seq<char>, Seq<char>)>, name: Seq<char>) -> Seq<Seq<char>>
    decreases pairs.len(),
{
    if pairs.len() == 0 {
        Seq::empty()
    } else if pairs.last().0 == name {
        ips_of(pairs.drop_last(), name).push(pairs.last().1)
    } else {
        ips_of(pairs.drop_last(), name)
    }
}

/// Lexicographic order of strings (`String`'s `Ord`: by code point).
pub open spec fn lex_lt(a: Seq<char>, b: Seq<char>) -> bool
    decreases a.len(),
{
    if a.len() == 0 {
        b.len() > 0
    } else if b.len() == 0 {
        false
    } else if a[0] != b[0] {
        (a[0] as u32) < (b[0] as u32)
    } else {
        lex_lt(a.drop_first(), b.drop_first())
    }
}

/// The position where `x` goes in the sorted `s`, from `i` on: before the first greater element.
pub open spec fn insert_pos(s: Seq<Seq<char>>, x: Seq<char>, i: int) -> int
    decreases s.len() - i,
{
    if i < 0 || i >= s.len() {
        s.len() as int
    } else if lex_lt(x, s[i]) {
        i
    } else {
        insert_pos(s, x, i + 1)
    }
}

/// Insertion sort.
pub open spec fn sort_names(s: Seq<Seq<char>>) -> Seq<Seq<char>>
    decreases s.len(),
{
    if s.len() == 0 {
        Seq::empty()
    } else {
        let sorted = sort_names(s.drop_last());
        sorted.insert(insert_pos(sorted, s.last(), 0), s.last())
    }
}

/// The names of `names` not in `head`, in order.
pub open spec fn names_without(names: Seq<Seq<char>>, head: Seq<Seq<char>>) -> Seq<Seq<char>>
    decreases names.len(),
{
    if names.len() == 0 {
        Seq::empty()
    } else if head.contains(names.last()) {
        names_without(names.drop_last(), head)
    } else {
        names_without(names.drop_last(), head).push(names.last())
    }
}

/// The interface order: the preferred (Wi-Fi) interface, then `eth0`, then the others sorted.
pub open spec fn ordered_names(names: Seq<Seq<char>>, preferred: Seq<char>) -> Seq<Seq<char>> {
    let h1: Seq<Seq<char>> = if names.contains(preferred) {
        seq![preferred]
    } else {
        Seq::empty()
    };
    let head = if preferred != "eth0"@ && names.contains("eth0"@) {
        h1.push("eth0"@)
    } else {
        h1
    };
    head + sort_names(names_without(names, head))
}

/// The addresses of the interfaces in order.
pub open spec fn addresses_in_order(pairs: Seq<(Seq<char>, Seq<char>)>, order: Seq<Seq<char>>) -> Seq<
    Seq<char>,
>
    decreases order.len(),
{
    if order.len() == 0 {
        Seq::empty()
    } else {
        addresses_in_order(pairs, order.drop_last()) + ips_of(pairs, order.last())
    }
}

/// The IP address text: the usable addresses, grouped by interface in the order above,
/// separated by `, `; `--` when there is none.
pub open spec fn ip_text(
    entries: Seq<(Option<Seq<char>>, Option<Seq<(Option<Seq<char>>, Option<Seq<char>>)>>)>,
    preferred: Seq<char>,
) -> Seq<char> {
    let pairs = addr_pairs(entries);
    if pairs.len() == 0 {
        NO_IP_ADDRESS@
    } else {
        join_with(addresses_in_order(pairs, ordered_names(group_names(pairs), preferred)), ", "@)
    }
}


/// The views of (name, address) pairs.
pub open spec fn pair_views(v: Seq<(Vec<char>, Vec<char>)>) -> Seq<(Seq<char>, Seq<char>)> {
    v.map_values(|p: (Vec<char>, Vec<char>)| (p.0@, p.1@))
}

/// `v` holds `x`.
fn contains_name(v: &Vec<Vec<char>>, x: &[char]) -> (r: bool)
    ensures
        r == char_views(v@).contains(x@),
{
    let mut i: usize = 0;
    while i < v.len()
        invariant
            i <= v@.len(),
            forall|k: int| 0 <= k < i ==> v@[k]@ != x@,
        decreases v@.len() - i,
    {
        if chars_eq(v[i].as_slice(), x) {
            assert(char_views(v@)[i as int] == x@);
            return true;
        }
        i += 1;
    }
    assert forall|k: int| 0 <= k < char_views(v@).len() implies char_views(v@)[k] != x@ by {
        assert(char_views(v@)[k] == v@[k]@);
    }
    false
}

/// The usable (interface, address) pairs of the interface entries.
fn collect_pairs(entries: &[IfaceAddrs]) -> (r: Vec<(Vec<char>, Vec<char>)>)
    ensures
        pair_views(r@) == addr_pairs(entries@.map_values(|e: IfaceAddrs| iface_view(e))),
{
    proof {
        reveal_strlit("lo");
        reveal_strlit("inet");
        reveal_strlit("127.0.0.1");
        reveal_strlit("169.254.");
    }
    let lo = vec!['l', 'o'];
    let inet = vec!['i', 'n', 'e', 't'];
    let loopback = str_chars("127.0.0.1");
    let link_local = str_chars("169.254.");
    assert(lo@ =~= "lo"@);
    assert(inet@ =~= "inet"@);
    let ghost views = entries@.map_values(|e: IfaceAddrs| iface_view(e));
    let mut out: Vec<(Vec<char>, Vec<char>)> = Vec::new();
    let mut i: usize = 0;
    while i < entries.len()
        invariant
            i <= entries@.len(),
            views == entries@.map_values(|e: IfaceAddrs| iface_view(e)),
            lo@ == "lo"@,
            inet@ == "inet"@,
            loopback@ == "127.0.0.1"@,
            link_local@ == "169.254."@,
            pair_views(out@) == addr_pairs(views.take(i as int)),
        decreases entries@.len() - i,
    {
        let e = &entries[i];
        let ghost before = pair_views(out@);
        proof {
            assert(views.take(i + 1).drop_last() =~= views.take(i as int));
            assert(views.take(i + 1).last() == iface_view(entries@[i as int]));
        }
        match (&e.ifname, &e.addr_info) {
            (Some(name), Some(infos)) => {
                let n = str_chars(name.as_str());
                if !chars_eq(n.as_slice(), lo.as_slice()) {
                    let ghost iviews = infos@.map_values(|a: AddrInfo| addr_view(a));
                    let mut j: usize = 0;
                    while j < infos.len()
                        invariant
                            j <= infos@.len(),
                            iviews == infos@.map_values(|a: AddrInfo| addr_view(a)),
                            inet@ == "inet"@,
                            loopback@ == "127.0.0.1"@,
                            link_local@ == "169.254."@,
                            pair_views(out@) == before + info_pairs(n@, iviews.take(j as int)),
                        decreases infos@.len() - j,
                    {
                        let info = &infos[j];
                        proof {
                            assert(iviews.take(j + 1).drop_last() =~= iviews.take(j as int));
                            assert(iviews.take(j + 1).last() == addr_view(infos@[j as int]));
                        }
                        match (&info.family, &info.local) {
                            (Some(f), Some(l)) => {
                                let fc = str_chars(f.as_str());
                                let lc = str_chars(l.as_str());
                                if chars_eq(fc.as_slice(), inet.as_slice()) && !chars_eq(
                                    lc.as_slice(),
                                    loopback.as_slice(),
                                ) && !starts_with_chars(lc.as_slice(), link_local.as_slice()) {
                                    let ghost prev = pair_views(out@);
                                    let nn = vstd::slice::slice_to_vec(n.as_slice());
                                    out.push((nn, lc));
                                    assert(pair_views(out@) =~= prev.push((n@, l@)));
                                }
                            },
                            _ => {},
                        }
                        j += 1;
                    }
                    assert(iviews.take(j as int) =~= iviews);
                }
            },
            _ => {},
        }
        proof {
            assert(pair_views(out@) =~= addr_pairs(views.take(i + 1)));
        }
        i += 1;
    }
    assert(views.take(i as int) =~= views);
    out
}

/// The distinct interface names of the pairs, in order of first appearance.
fn collect_names(pairs: &Vec<(Vec<char>, Vec<char>)>) -> (r: Vec<Vec<char>>)
    ensures
        char_views(r@) == group_names(pair_views(pairs@)),
{
    let ghost pv = pair_views(pairs@);
    let mut names: Vec<Vec<char>> = Vec::new();
    let mut i: usize = 0;
    while i < pairs.len()
        invariant
            i <= pairs@.len(),
            pv == pair_views(pairs@),
            char_views(names@) == group_names(pv.take(i as int)),
        decreases pairs@.len() - i,
    {
        proof {
            assert(pv.take(i + 1).drop_last() =~= pv.take(i as int));
            assert(pv.take(i + 1).last() == (pairs@[i as int].0@, pairs@[i as int].1@));
        }
        let name = pairs[i].0.as_slice();
        if !contains_name(&names, name) {
            let ghost prev = char_views(names@);
            names.push(vstd::slice::slice_to_vec(name));
            assert(char_views(names@) =~= prev.push(name@));
        }
        i += 1;
    }
    assert(pv.take(i as int) =~= pv);
    names
}

/// `a` sorts before `b`.
fn lex_less(a: &[char], b: &[char]) -> (r: bool)
    ensures
        r == lex_lt(a@, b@),
{
    let mut i: usize = 0;
    assert(a@.skip(0) =~= a@);
    assert(b@.skip(0) =~= b@);
    while i < a.len() && i < b.len() && a[i] == b[i]
        invariant
            i <= a@.len(),
            i <= b@.len(),
            lex_lt(a@, b@) == lex_lt(a@.skip(i as int), b@.skip(i as int)),
        decreases a@.len() - i,
    {
        proof {
            assert(a@.skip(i as int).drop_first() =~= a@.skip(i + 1));
            assert(b@.skip(i as int).drop_first() =~= b@.skip(i + 1));
        }
        i += 1;
    }
    if i == a.len() {
        return i < b.len();
    }
    if i == b.len() {
        return false;
    }
    assert(a@.skip(i as int)[0] == a@[i as int]);
    assert(b@.skip(i as int)[0] == b@[i as int]);
    (a[i] as u32) < (b[i] as u32)
}

/// Insertion sort of names.
fn sort_names_exec(names: Vec<Vec<char>>) -> (r: Vec<Vec<char>>)
    ensures
        char_views(r@) == sort_names(char_views(names@)),
{
    let ghost nv = char_views(names@);
    let mut sorted: Vec<Vec<char>> = Vec::new();
    let mut i: usize = 0;
    while i < names.len()
        invariant
            i <= names@.len(),
            nv == char_views(names@),
            char_views(sorted@) == sort_names(nv.take(i as int)),
        decreases names@.len() - i,
    {
        let x = names[i].as_slice();
        let ghost sv = char_views(sorted@);
        let mut k: usize = 0;
        while k < sorted.len() && !lex_less(x, sorted[k].as_slice())
            invariant
                k <= sorted@.len(),
                sv == char_views(sorted@),
                insert_pos(sv, x@, 0) == insert_pos(sv, x@, k as int),
            decreases sorted@.len() - k,
        {
            k += 1;
        }
        proof {
            assert(nv.take(i + 1).drop_last() =~= nv.take(i as int));
            assert(nv.take(i + 1).last() == x@);
        }
        sorted.insert(k, vstd::slice::slice_to_vec(x));
        assert(char_views(sorted@) =~= sv.insert(k as int, x@));
        i += 1;
    }
    assert(nv.take(i as int) =~= nv);
    sorted
}

/// The addresses of `name`, appended to `out`.
fn push_ips_of(pairs: &Vec<(Vec<char>, Vec<char>)>, name: &[char], out: &mut Vec<Vec<char>>)
    ensures
        char_views(final(out)@) == char_views(old(out)@) + ips_of(pair_views(pairs@), name@),
{
    let ghost pv = pair_views(pairs@);
    let ghost start = char_views(out@);
    let mut i: usize = 0;
    while i < pairs.len()
        invariant
            i <= pairs@.len(),
            pv == pair_views(pairs@),
            char_views(out@) == start + ips_of(pv.take(i as int), name@),
        decreases pairs@.len() - i,
    {
        proof {
            assert(pv.take(i + 1).drop_last() =~= pv.take(i as int));
            assert(pv.take(i + 1).last() == (pairs@[i as int].0@, pairs@[i as int].1@));
        }
        if chars_eq(pairs[i].0.as_slice(), name) {
            let ghost prev = char_views(out@);
            out.push(vstd::slice::slice_to_vec(pairs[i].1.as_slice()));
            assert(char_views(out@) =~= prev.push(pairs@[i as int].1@));
        }
        i += 1;
    }
    assert(pv.take(i as int) =~= pv);
}

/// The IP address text for the interface entries, preferring the Wi-Fi interface
/// `preferred`.
pub fn select_ip_addresses(entries: &[IfaceAddrs], preferred: &str) -> (r: String)
    ensures
        r@ == ip_text(entries@.map_values(|e: IfaceAddrs| iface_view(e)), preferred@),
{
    let pairs = collect_pairs(entries);
    if pairs.len() == 0 {
        return String::from_str(NO_IP_ADDRESS);
    }
    let names = collect_names(&pairs);
    let pref = str_chars(preferred);
    let eth0 = vec!['e', 't', 'h', '0'];
    proof {
        reveal_strlit("eth0");
        reveal_strlit(", ");
    }
    assert(eth0@ =~= "eth0"@);
    let ghost nv = char_views(names@);
    let ghost h1: Seq<Seq<char>> = if nv.contains(preferred@) {
        seq![preferred@]
    } else {
        Seq::empty()
    };
    let ghost h2: Seq<Seq<char>> = if preferred@ != "eth0"@ && nv.contains("eth0"@) {
        h1.push("eth0"@)
    } else {
        h1
    };
    let mut head: Vec<Vec<char>> = Vec::new();
    if contains_name(&names, pref.as_slice()) {
        head.push(vstd::slice::slice_to_vec(pref.as_slice()));
    }
    assert(char_views(head@) =~= h1);
    if !chars_eq(pref.as_slice(), eth0.as_slice()) && contains_name(&names, eth0.as_slice()) {
        let ghost prev = char_views(head@);
        head.push(vstd::slice::slice_to_vec(eth0.as_slice()));
        assert(char_views(head@) =~= prev.push("eth0"@));
    }
    let ghost hv = char_views(head@);
    assert(hv =~= h2);
    let mut rest: Vec<Vec<char>> = Vec::new();
    let mut i: usize = 0;
    while i < names.len()
        invariant
            i <= names@.len(),
            nv == char_views(names@),
            hv == char_views(head@),
            char_views(rest@) == names_without(nv.take(i as int), hv),
        decreases names@.len() - i,
    {
        proof {
            assert(nv.take(i + 1).drop_last() =~= nv.take(i as int));
            assert(nv.take(i + 1).last() == names@[i as int]@);
        }
        if !contains_name(&head, names[i].as_slice()) {
            let ghost prev = char_views(rest@);
            rest.push(vstd::slice::slice_to_vec(names[i].as_slice()));
            assert(char_views(rest@) =~= prev.push(names@[i as int]@));
        }
        i += 1;
    }
    assert(nv.take(i as int) =~= nv);
    let sorted = sort_names_exec(rest);
    let mut order = head;
    let mut sorted_mut = sorted;
    let ghost sv = char_views(sorted_mut@);
    order.append(&mut sorted_mut);
    let ghost ov = char_views(order@);
    assert(ov =~= hv + sv);
    assert(ov =~= ordered_names(nv, preferred@));
    let ghost pv = pair_views(pairs@);
    let mut ips: Vec<Vec<char>> = Vec::new();
    let mut k: usize = 0;
    while k < order.len()
        invariant
            k <= order@.len(),
            ov == char_views(order@),
            pv == pair_views(pairs@),
            char_views(ips@) == addresses_in_order(pv, ov.take(k as int)),
        decreases order@.len() - k,
    {
        proof {
            assert(ov.take(k + 1).drop_last() =~= ov.take(k as int));
            assert(ov.take(k + 1).last() == order@[k as int]@);
        }
        push_ips_of(&pairs, order[k].as_slice(), &mut ips);
        k += 1;
    }
    assert(ov.take(k as int) =~= ov);
    let sep = vec![',', ' '];
    assert(sep@ =~= ", "@);
    let text = join_chars(ips.as_slice(), sep.as_slice());
    string_from_chars(text.as_slice())
}

/// The IP address text for the raw output of `ip -j -4 addr show`: `--` when it is not
/// a JSON array.
pub fn ip_address_text(stdout: &[u8], preferred: &str) -> (r: String)
    ensures
        r@ == match ip_addr_json(stdout@) {
            Some(entries) => ip_text(entries, preferred@),
            None => NO_IP_ADDRESS@,
        },
{
    match decode_ip_addr_json(stdout) {
        Some(entries) => select_ip_addresses(entries.as_slice(), preferred),
        None => String::from_str(NO_IP_ADDRESS),
    }
}


/// No later name sorts strictly before an earlier one.
pub open spec fn sorted_names(s: Seq<Seq<char>>) -> bool {
    forall|i: int, j: int| 0 <= i < j < s.len() ==> !lex_lt(#[trigger] s[j], #[trigger] s[i])
}

proof fn lemma_lex_lt_asym(a: Seq<char>, b: Seq<char>)
    ensures
        lex_lt(a, b) ==> !lex_lt(b, a),
    decreases a.len(),
{
    if a.len() > 0 && b.len() > 0 && a[0] == b[0] {
        lemma_lex_lt_asym(a.drop_first(), b.drop_first());
    }
}

proof fn lemma_lex_lt_trans(a: Seq<char>, b: Seq<char>, c: Seq<char>)
    ensures
        lex_lt(a, b) && lex_lt(b, c) ==> lex_lt(a, c),
    decreases a.len(),
{
    if a.len() > 0 && b.len() > 0 && c.len() > 0 && a[0] == b[0] && b[0] == c[0] {
        lemma_lex_lt_trans(a.drop_first(), b.drop_first(), c.drop_first());
    }
}

proof fn lemma_insert_pos(s: Seq<Seq<char>>, x: Seq<char>, i: int)
    requires
        0 <= i <= s.len(),
    ensures
        i <= insert_pos(s, x, i) <= s.len(),
        forall|k: int| i <= k < insert_pos(s, x, i) ==> !lex_lt(x, #[trigger] s[k]),
        insert_pos(s, x, i) < s.len() ==> lex_lt(x, s[insert_pos(s, x, i)]),
    decreases s.len() - i,
{
    if i < s.len() && !lex_lt(x, s[i]) {
        lemma_insert_pos(s, x, i + 1);
    }
}

/// Insertion sort gives the same names, sorted.
proof fn lemma_sort_names(s: Seq<Seq<char>>)
    ensures
        sorted_names(sort_names(s)),
        sort_names(s).to_multiset() == s.to_multiset(),
    decreases s.len(),
{
    broadcast use vstd::seq_lib::to_multiset_insert, vstd::seq_lib::to_multiset_build;

    if s.len() == 0 {
        assert(sort_names(s).to_multiset() =~= s.to_multiset()) by {
            assert(s =~= Seq::<Seq<char>>::empty());
        }
    } else {
        let init = s.drop_last();
        let x = s.last();
        lemma_sort_names(init);
        let t = sort_names(init);
        lemma_insert_pos(t, x, 0);
        let p = insert_pos(t, x, 0);
        let r = t.insert(p, x);
        assert(r == sort_names(s));
        assert(s =~= init.push(x));
        assert forall|i: int, j: int| 0 <= i < j < r.len() implies !lex_lt(#[trigger] r[j], #[trigger] r[i]) by {
            if j < p {
                assert(r[i] == t[i] && r[j] == t[j]);
            } else if j == p {
                assert(r[j] == x && r[i] == t[i]);
            } else if i < p {
                assert(r[j] == t[j - 1] && r[i] == t[i]);
                if lex_lt(t[j - 1], t[i]) {
                    if p < t.len() {
                        assert(!lex_lt(t[j - 1], t[p]));
                        lemma_lex_lt_asym(x, t[p]);
                        lemma_lex_lt_trans(t[j - 1], t[i], x);
                        assert(!lex_lt(x, t[i]));
                    }
                }
            } else if i == p {
                assert(r[i] == x && r[j] == t[j - 1]);
                lemma_lex_lt_asym(x, t[p]);
                if j - 1 > p {
                    lemma_lex_lt_trans(t[j - 1], x, t[p]);
                }
            } else {
                assert(r[i] == t[i - 1] && r[j] == t[j - 1]);
            }
        }
    }
}

/// `v` holds no name twice.
pub open spec fn distinct_names(v: Seq<Seq<char>>) -> bool {
    forall|i: int, j: int| 0 <= i < j < v.len() ==> #[trigger] v[i] != #[trigger] v[j]
}

proof fn lemma_distinct_count(v: Seq<Seq<char>>, x: Seq<char>)
    requires
        distinct_names(v),
    ensures
        v.to_multiset().count(x) == if v.contains(x) { 1nat } else { 0nat },
    decreases v.len(),
{
    broadcast use vstd::seq_lib::group_to_multiset_ensures, vstd::multiset::group_multiset_axioms;

    if v.len() > 0 {
        let init = v.drop_last();
        assert(v =~= init.push(v.last()));
        lemma_distinct_count(init, x);
        if init.contains(x) {
            let k = choose|k: int| 0 <= k < init.len() && init[k] == x;
            assert(v[k] == x);
        }
        if v.contains(x) && !init.contains(x) {
            let k = choose|k: int| 0 <= k < v.len() && v[k] == x;
            if k < v.len() - 1 {
                assert(init[k] == x);
            }
        }
    }
}

proof fn lemma_names_without_count(names: Seq<Seq<char>>, head: Seq<Seq<char>>, x: Seq<char>)
    ensures
        names_without(names, head).to_multiset().count(x) == if head.contains(x) {
            0nat
        } else {
            names.to_multiset().count(x)
        },
    decreases names.len(),
{
    broadcast use vstd::seq_lib::group_to_multiset_ensures, vstd::multiset::group_multiset_axioms;

    if names.len() == 0 {
        assert(names.to_multiset().len() == 0);
        assert(names_without(names, head).to_multiset().len() == 0);
    } else {
        let init = names.drop_last();
        assert(names =~= init.push(names.last()));
        lemma_names_without_count(init, head, x);
    }
}

proof fn lemma_group_names_distinct(pairs: Seq<(Seq<char>, Seq<char>)>)
    ensures
        distinct_names(group_names(pairs)),
        forall|k: int| 0 <= k < pairs.len() ==> group_names(pairs).contains(#[trigger] pairs[k].0),
        forall|n: Seq<char>| #[trigger] group_names(pairs).contains(n) ==> exists|k: int| 0 <= k < pairs.len() && pairs[k].0 == n,
    decreases pairs.len(),
{
    if pairs.len() > 0 {
        let init = pairs.drop_last();
        lemma_group_names_distinct(init);
        let g = group_names(init);
        let x = pairs.last().0;
        assert forall|k: int| 0 <= k < pairs.len() implies group_names(pairs).contains(#[trigger] pairs[k].0) by {
            if k < pairs.len() - 1 {
                assert(init[k] == pairs[k]);
                let j = choose|j: int| 0 <= j < g.len() && g[j] == init[k].0;
                if !g.contains(x) {
                    assert(g.push(x)[j] == g[j]);
                }
            } else if !g.contains(x) {
                assert(g.push(x)[g.len() as int] == x);
            }
        }
        assert forall|n: Seq<char>| #[trigger] group_names(pairs).contains(n) implies exists|k: int|
            0 <= k < pairs.len() && pairs[k].0 == n by {
            if g.contains(n) {
                let k = choose|k: int| 0 <= k < init.len() && init[k].0 == n;
                assert(pairs[k] == init[k]);
            } else {
                assert(pairs[pairs.len() - 1].0 == n);
            }
        }
    }
}

/// The interfaces with a usable address are each listed once in the IP text's order:
/// the Wi-Fi interface first when it has an address, then `eth0` (when it is not the
/// Wi-Fi interface), then the others sorted by name.
pub proof fn law_ip_interface_order(pairs: Seq<(Seq<char>, Seq<char>)>, preferred: Seq<char>)
    ensures
        ordered_names(group_names(pairs), preferred).to_multiset() == group_names(pairs).to_multiset(),
        distinct_names(group_names(pairs)),
        forall|k: int| 0 <= k < pairs.len() ==> group_names(pairs).contains(#[trigger] pairs[k].0),
        group_names(pairs).contains(preferred) ==> ordered_names(group_names(pairs), preferred)[0]
            == preferred,
        ({
            let names = group_names(pairs);
            let h1: Seq<Seq<char>> = if names.contains(preferred) {
                seq![preferred]
            } else {
                Seq::empty()
            };
            let head = if preferred != "eth0"@ && names.contains("eth0"@) {
                h1.push("eth0"@)
            } else {
                h1
            };
            sorted_names(ordered_names(names, preferred).skip(head.len() as int))
        }),
{
    broadcast use vstd::seq_lib::lemma_multiset_commutative;

    let names = group_names(pairs);
    lemma_group_names_distinct(pairs);
    let h1: Seq<Seq<char>> = if names.contains(preferred) {
        seq![preferred]
    } else {
        Seq::empty()
    };
    let head = if preferred != "eth0"@ && names.contains("eth0"@) {
        h1.push("eth0"@)
    } else {
        h1
    };
    let rest = names_without(names, head);
    lemma_sort_names(rest);
    let o = ordered_names(names, preferred);
    assert(o == head + sort_names(rest));
    assert(o.skip(head.len() as int) =~= sort_names(rest));
    assert(distinct_names(head)) by {
        if head.len() == 2 {
            assert(head[0] == preferred);
            assert(head[1] == "eth0"@);
        }
    }
    assert forall|x: Seq<char>| #[trigger] o.to_multiset().count(x) == names.to_multiset().count(x) by {
        lemma_distinct_count(head, x);
        lemma_distinct_count(names, x);
        lemma_names_without_count(names, head, x);
        if head.contains(x) {
            let k = choose|k: int| 0 <= k < head.len() && head[k] == x;
            if head.len() == 2 && k == 1 {
                assert(head[1] == "eth0"@);
            } else {
                assert(head[0] == x);
                if h1.len() == 1 {
                    assert(h1[0] == preferred);
                } else {
                    assert(head[0] == "eth0"@);
                }
            }
        }
    }
    assert(o.to_multiset() =~= names.to_multiset());
}

proof fn lemma_info_pairs_has(name: Seq<char>, infos: Seq<(Option<Seq<char>>, Option<Seq<char>>)>, j: int, l: Seq<char>)
    requires
        0 <= j < infos.len(),
        infos[j] == (Some("inet"@), Some(l)),
        usable_local(l),
    ensures
        info_pairs(name, infos).contains((name, l)),
    decreases infos.len(),
{
    let prev = info_pairs(name, infos.drop_last());
    if j == infos.len() - 1 {
        assert(info_pairs(name, infos).last() == (name, l));
    } else {
        lemma_info_pairs_has(name, infos.drop_last(), j, l);
        let k = choose|k: int| 0 <= k < prev.len() && prev[k] == (name, l);
        assert(info_pairs(name, infos)[k] == (name, l));
    }
}

proof fn lemma_addr_pairs_has(
    entries: Seq<(Option<Seq<char>>, Option<Seq<(Option<Seq<char>>, Option<Seq<char>>)>>)>,
    i: int,
    infos: Seq<(Option<Seq<char>>, Option<Seq<char>>)>,
    j: int,
    n: Seq<char>,
    l: Seq<char>,
)
    requires
        0 <= i < entries.len(),
        entries[i] == (Some(n), Some(infos)),
        n != "lo"@,
        0 <= j < infos.len(),
        infos[j] == (Some("inet"@), Some(l)),
        usable_local(l),
    ensures
        addr_pairs(entries).contains((n, l)),
    decreases entries.len(),
{
    let prev = addr_pairs(entries.drop_last());
    let all = addr_pairs(entries);
    if i == entries.len() - 1 {
        lemma_info_pairs_has(n, infos, j, l);
        let here = info_pairs(n, infos);
        assert(all == prev + here);
        let k = choose|k: int| 0 <= k < here.len() && here[k] == (n, l);
        assert(all[prev.len() + k] == (n, l));
    } else {
        lemma_addr_pairs_has(entries.drop_last(), i, infos, j, n, l);
        let k = choose|k: int| 0 <= k < prev.len() && prev[k] == (n, l);
        assert(all[k] == (n, l));
    }
}

proof fn lemma_ips_of_has(pairs: Seq<(Seq<char>, Seq<char>)>, n: Seq<char>, l: Seq<char>)
    requires
        pairs.contains((n, l)),
    ensures
        ips_of(pairs, n).contains(l),
    decreases pairs.len(),
{
    let init = pairs.drop_last();
    if pairs.last() == (n, l) {
        assert(ips_of(pairs, n).last() == l);
    } else {
        let k = choose|k: int| 0 <= k < pairs.len() && pairs[k] == (n, l);
        assert(init[k] == (n, l));
        lemma_ips_of_has(init, n, l);
        let prev = ips_of(init, n);
        let q = choose|q: int| 0 <= q < prev.len() && prev[q] == l;
        assert(ips_of(pairs, n)[q] == l);
    }
}

proof fn lemma_addresses_in_order_has(
    pairs: Seq<(Seq<char>, Seq<char>)>,
    order: Seq<Seq<char>>,
    n: Seq<char>,
    l: Seq<char>,
)
    requires
        order.contains(n),
        ips_of(pairs, n).contains(l),
    ensures
        addresses_in_order(pairs, order).contains(l),
    decreases order.len(),
{
    let prev = addresses_in_order(pairs, order.drop_last());
    let here = ips_of(pairs, order.last());
    let all = addresses_in_order(pairs, order);
    assert(all == prev + here);
    if order.last() == n {
        let q = choose|q: int| 0 <= q < here.len() && here[q] == l;
        assert(all[prev.len() + q] == l);
    } else {
        let k = choose|k: int| 0 <= k < order.len() && order[k] == n;
        assert(order.drop_last()[k] == n);
        lemma_addresses_in_order_has(pairs, order.drop_last(), n, l);
        let q = choose|q: int| 0 <= q < prev.len() && prev[q] == l;
        assert(all[q] == l);
    }
}

proof fn lemma_occurs_contains(hay: Seq<char>, x: Seq<char>, at: int)
    requires
        crate::text::occurs_at(hay, x, at),
    ensures
        crate::text::contains_seq(hay, x),
{
    crate::text::lemma_find_from_bounds(hay, x, 0);
}

proof fn lemma_join_has(list: Seq<Seq<char>>, sep: Seq<char>, k: int)
    requires
        0 <= k < list.len(),
    ensures
        exists|at: int| crate::text::occurs_at(join_with(list, sep), list[k], at),
    decreases list.len(),
{
    let j = join_with(list, sep);
    if list.len() == 1 {
        assert(j.subrange(0, list[k].len() as int) =~= list[k]);
        assert(crate::text::occurs_at(j, list[k], 0));
    } else if k == list.len() - 1 {
        let at = j.len() - list[k].len();
        assert(j.subrange(at, at + list[k].len()) =~= list[k]);
        assert(crate::text::occurs_at(j, list[k], at));
    } else {
        let init = list.drop_last();
        assert(init[k] == list[k]);
        lemma_join_has(init, sep, k);
        let pj = join_with(init, sep);
        let at = choose|at: int| crate::text::occurs_at(pj, list[k], at);
        assert(j == pj + sep + list.last());
        assert(j.subrange(at, at + list[k].len()) =~= pj.subrange(at, at + list[k].len()));
        assert(crate::text::occurs_at(j, list[k], at));
    }
}

/// Every IPv4 (`inet`) address of an interface other than `lo` is shown in the IP text,
/// unless it is `127.0.0.1` or link-local (starting with `169.254.`).
pub proof fn law_ip_text_shows_usable_addresses(
    entries: Seq<(Option<Seq<char>>, Option<Seq<(Option<Seq<char>>, Option<Seq<char>>)>>)>,
    preferred: Seq<char>,
    i: int,
    infos: Seq<(Option<Seq<char>>, Option<Seq<char>>)>,
    j: int,
    n: Seq<char>,
    l: Seq<char>,
)
    requires
        0 <= i < entries.len(),
        entries[i] == (Some(n), Some(infos)),
        n != "lo"@,
        0 <= j < infos.len(),
        infos[j] == (Some("inet"@), Some(l)),
        l != "127.0.0.1"@,
        !(l.len() >= 8 && l.take(8) == "169.254."@),
    ensures
        crate::text::contains_seq(ip_text(entries, preferred), l),
{
    broadcast use vstd::seq_lib::to_multiset_contains;

    assert(usable_local(l)) by {
        reveal_strlit("169.254.");
    }
    lemma_addr_pairs_has(entries, i, infos, j, n, l);
    let pairs = addr_pairs(entries);
    law_ip_interface_order(pairs, preferred);
    let k = choose|k: int| 0 <= k < pairs.len() && pairs[k] == (n, l);
    assert(group_names(pairs).contains(pairs[k].0));
    let order = ordered_names(group_names(pairs), preferred);
    assert(order.to_multiset().count(n) > 0);
    lemma_ips_of_has(pairs, n, l);
    lemma_addresses_in_order_has(pairs, order, n, l);
    let list = addresses_in_order(pairs, order);
    let q = choose|q: int| 0 <= q < list.len() && list[q] == l;
    lemma_join_has(list, ", "@, q);
    let at = choose|at: int| crate::text::occurs_at(join_with(list, ", "@), list[q], at);
    lemma_occurs_contains(join_with(list, ", "@), l, at);
}

} // verus!
