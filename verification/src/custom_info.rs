//! Custom info items: numbering, UUID suffixes and polling intervals, lookup by suffix,
//! and the processing of each polled output.
use vstd::prelude::*;
use std::collections::HashMap;
use crate::config::CustomInfoItem;
use crate::uuid::{suffix_for_index0, upper_hex};
use crate::custom_command::{suffix_value, suffix_to_u16, law_suffix_round_trip};
use crate::text::str_chars;
use crate::ble::{ChangeDetector, offer_spec};
use crate::custom_command::string_bytes;
use vstd::utf8::encode_utf8;
use vstd::string::StringExecFns;

verus! {

broadcast use vstd::std_specs::hash::group_hash_axioms;

/// Polling interval of an item without one, in seconds.
pub const DEFAULT_CUSTOM_INFO_INTERVAL_SECS: u64 = 10;

/// Timeout of one poll, in seconds.
pub const DEFAULT_CUSTOM_INFO_TIMEOUT_SECS: u64 = 10;

/// Cap on the output kept from one poll.
pub const DEFAULT_CUSTOM_INFO_MAX_BYTES: usize = 1024;

/// A registered custom info item.
#[derive(Debug, Clone, PartialEq, Eq)]
pub struct CustomInfoSpec {
    /// 1-based index (0001 == first info item).
    pub index: u16,
    /// 4 hex digits, uppercase.
    pub suffix: String,
    pub label: String,
    pub command: String,
    /// Polling interval in seconds.
    pub interval_secs: u64,
}

/// Why the custom info items cannot be registered.
#[derive(Debug, Clone, Copy, PartialEq, Eq)]
pub enum CustomInfoError {
    /// More items than a 4-hex suffix can number.
    TooManyItems,
}

impl CustomInfoError {
    pub fn message(&self) -> (r: &'static str)
        ensures
            r@ == "custom info count exceeds u16::MAX"@,
    {
        "custom info count exceeds u16::MAX"
    }
}

/// The spec registered for item `i` of the configuration.
pub open spec fn spec_for(item: CustomInfoItem, i: int) -> (u16, Seq<char>, Seq<char>, Seq<char>, u64) {
    (
        (i + 1) as u16,
        upper_hex((i + 1) as nat, 4),
        item.label@,
        item.command@,
        match item.interval {
            Some(s) => s,
            None => DEFAULT_CUSTOM_INFO_INTERVAL_SECS,
        },
    )
}

/// The view of a registered item.
pub open spec fn spec_view(s: CustomInfoSpec) -> (u16, Seq<char>, Seq<char>, Seq<char>, u64) {
    (s.index, s.suffix@, s.label@, s.command@, s.interval_secs)
}

/// Registered custom info items, numbered from 1 in configuration order.
#[derive(Debug)]
pub struct CustomInfoRegistry {
    items: Vec<CustomInfoSpec>,
    by_suffix: HashMap<u16, usize>,
}

impl CustomInfoRegistry {
    #[verifier::type_invariant]
    spec fn inv(self) -> bool {
        &&& self.items@.len() <= 65535
        &&& forall|i: int| 0 <= i < self.items@.len() ==> (#[trigger] self.items@[i]).index == i + 1
        &&& forall|k: u16| #[trigger] self.by_suffix@.contains_key(k) <==> 1 <= k <= self.items@.len()
        &&& forall|k: u16| self.by_suffix@.contains_key(k) ==> #[trigger] self.by_suffix@[k] == k - 1
    }

    /// The registered items in order.
    pub closed spec fn spec_items(&self) -> Seq<CustomInfoSpec> {
        self.items@
    }

    /// Register the configured items: item `i` gets index `i + 1`, the matching 4-hex
    /// suffix, and its interval (default 10 s). Fails beyond 65535 items.
    pub fn from_config(items: &[CustomInfoItem]) -> (r: Result<Self, CustomInfoError>)
        ensures
            items@.len() > 65535 ==> r == Err::<Self, CustomInfoError>(CustomInfoError::TooManyItems),
            items@.len() <= 65535 ==> (r matches Ok(reg) && reg.spec_items().len() == items@.len()
                && forall|i: int|
                0 <= i < items@.len() ==> spec_view(#[trigger] reg.spec_items()[i]) == spec_for(
                    items@[i],
                    i,
                )),
    {
        let mut out: Vec<CustomInfoSpec> = Vec::new();
        let mut i: usize = 0;
        while i < items.len()
            invariant
                i <= items@.len(),
                out@.len() == i,
                i <= 65535,
                forall|k: int| 0 <= k < i ==> spec_view(#[trigger] out@[k]) == spec_for(items@[k], k),
            decreases items@.len() - i,
        {
            if i >= 65535 {
                return Err(CustomInfoError::TooManyItems);
            }
            let item = &items[i];
            let interval = match item.interval {
                Some(s) => s,
                None => DEFAULT_CUSTOM_INFO_INTERVAL_SECS,
            };
            let spec = CustomInfoSpec {
                index: (i + 1) as u16,
                suffix: suffix_for_index0(i),
                label: item.label.clone(),
                command: item.command.clone(),
                interval_secs: interval,
            };
            out.push(spec);
            i += 1;
        }
        let mut by_suffix: HashMap<u16, usize> = HashMap::new();
        let mut j: usize = 0;
        while j < out.len()
            invariant
                j <= out@.len(),
                out@.len() <= 65535,
                forall|k: int| 0 <= k < out@.len() ==> (#[trigger] out@[k]).index == k + 1,
                forall|k: u16| #[trigger] by_suffix@.contains_key(k) <==> 1 <= k <= j,
                forall|k: u16| by_suffix@.contains_key(k) ==> #[trigger] by_suffix@[k] == k - 1,
            decreases out@.len() - j,
        {
            let idx = out[j].index;
            by_suffix.insert(idx, j);
            j += 1;
        }
        Ok(CustomInfoRegistry { items: out, by_suffix })
    }

    /// The registered items in order.
    pub fn items(&self) -> (r: &[CustomInfoSpec])
        ensures
            r@ == self.spec_items(),
    {
        self.items.as_slice()
    }

    /// The item a 4-hex suffix designates (`0001` is the first).
    pub fn get_by_suffix(&self, suffix: &str) -> (r: Option<&CustomInfoSpec>)
        ensures
            match suffix_value(suffix@) {
                Some(n) => if 1 <= n <= self.spec_items().len() {
                    r == Some(&self.spec_items()[n - 1])
                } else {
                    r is None
                },
                None => r is None,
            },
    {
        proof {
            use_type_invariant(self);
        }
        let chars = str_chars(suffix);
        let idx = match suffix_to_u16(chars.as_slice()) {
            Some(n) => n,
            None => return None,
        };
        match self.by_suffix.get(&idx) {
            Some(i) => {
                let i = *i;
                if i < self.items.len() {
                    Some(&self.items[i])
                } else {
                    None
                }
            },
            None => None,
        }
    }
}


/// A changed output of a custom info item, to be notified.
#[derive(Debug, Clone, PartialEq, Eq)]
pub struct CustomInfoUpdate {
    pub index: u16,
    pub suffix: String,
    pub output: Vec<u8>,
}

/// `b` without its trailing zero bytes.
pub open spec fn strip_trailing_zeros(b: Seq<u8>) -> Seq<u8>
    decreases b.len(),
{
    if b.len() > 0 && b.last() == 0 {
        strip_trailing_zeros(b.drop_last())
    } else {
        b
    }
}

/// The output kept from one poll: stdout then stderr (or `cmd error: ` and the error's
/// text when the command could not run), cut to `max` bytes, trailing zero bytes removed.
pub open spec fn poll_output_spec(outcome: Result<(Seq<u8>, Seq<u8>), Seq<char>>, max: usize) -> Seq<u8> {
    let raw = match outcome {
        Ok((out, err)) => out + err,
        Err(e) => encode_utf8("cmd error: "@ + e),
    };
    let capped = if raw.len() > max {
        raw.take(max as int)
    } else {
        raw
    };
    strip_trailing_zeros(capped)
}

/// The output kept from one poll of a custom info command.
pub fn poll_output(outcome: Result<(&[u8], &[u8]), &str>, max_output_bytes: usize) -> (r: Vec<u8>)
    ensures
        r@ == poll_output_spec(
            match outcome {
                Ok((o, e)) => Ok((o@, e@)),
                Err(t) => Err(t@),
            },
            max_output_bytes,
        ),
{
    let mut out = match outcome {
        Ok((o, e)) => {
            let mut bytes = vstd::slice::slice_to_vec(o);
            let mut tail = vstd::slice::slice_to_vec(e);
            bytes.append(&mut tail);
            bytes
        },
        Err(t) => {
            let msg = String::from_str("cmd error: ").concat(t);
            string_bytes(msg.as_str())
        },
    };
    if out.len() > max_output_bytes {
        out.truncate(max_output_bytes);
    }
    let ghost capped = out@;
    while out.len() > 0 && out[out.len() - 1] == 0
        invariant
            strip_trailing_zeros(capped) == strip_trailing_zeros(out@),
        decreases out@.len(),
    {
        let ghost before = out@;
        out.pop();
        assert(out@ =~= before.drop_last());
    }
    out
}

/// Offer one poll's output of `spec`'s item: an update when it differs from the last one
/// notified (the first always does).
pub fn poll_update(spec: &CustomInfoSpec, detector: &mut ChangeDetector, output: Vec<u8>) -> (r: Option<
    CustomInfoUpdate,
>)
    ensures
        (final(detector).last_sent(), r is Some) == offer_spec(old(detector).last_sent(), output@),
        r matches Some(u) ==> u.index == spec.index && u.suffix@ == spec.suffix@ && u.output@ == output@,
{
    if detector.offer(output.as_slice()) {
        Some(CustomInfoUpdate { index: spec.index, suffix: spec.suffix.clone(), output })
    } else {
        None
    }
}

/// The suffix the registry gives the item at 0-based position `i` designates that item
/// again: it reads as `i + 1`, within the registered range (so `get_by_suffix` on it
/// returns the item).
pub proof fn law_registry_suffix_lookup(items: Seq<CustomInfoItem>, i: int)
    requires
        0 <= i < items.len(),
        items.len() <= 65535,
    ensures
        suffix_value(spec_for(items[i], i).1) == Some((i + 1) as nat),
        1 <= i + 1 <= items.len(),
        spec_for(items[i], i).0 == i + 1,
{
    law_suffix_round_trip(i as nat);
}

/// What one poll keeps is at most `max` bytes long and never ends with a zero byte.
pub proof fn law_poll_output_bounds(outcome: Result<(Seq<u8>, Seq<u8>), Seq<char>>, max: usize)
    ensures
        poll_output_spec(outcome, max).len() <= max,
        poll_output_spec(outcome, max).len() > 0 ==> poll_output_spec(outcome, max).last() != 0,
{
    let raw = match outcome {
        Ok((out, err)) => out + err,
        Err(e) => encode_utf8("cmd error: "@ + e),
    };
    let capped = if raw.len() > max {
        raw.take(max as int)
    } else {
        raw
    };
    lemma_strip_trailing_zeros(capped);
}

proof fn lemma_strip_trailing_zeros(b: Seq<u8>)
    ensures
        strip_trailing_zeros(b).len() <= b.len(),
        strip_trailing_zeros(b).len() > 0 ==> strip_trailing_zeros(b).last() != 0,
    decreases b.len(),
{
    if b.len() > 0 && b.last() == 0 {
        lemma_strip_trailing_zeros(b.drop_last());
    }
}

} // verus!
