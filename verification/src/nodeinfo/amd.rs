//! AMD GPUs: from `amd-smi` when it reports any, else from legacy
//! `rocm-smi --json` (an object keyed by `card0`, `card1`, ...; byte counts are
//! strings). Values are found by a depth-first search of each card's JSON tree.
//!
//! `amd-smi static --json` and `amd-smi metric --json` are arrays of per-GPU
//! objects keyed by a `gpu` index; their sizes (decimal megabytes) and
//! activity percentages are JSON numbers, possibly wrapped as
//! `{"value": .., "unit": ..}`, and are handed out as their JSON text.

use vstd::prelude::*;
use vstd::utf8::encode_utf8;
use crate::codec::{
    find_member, is_json_number, json_array_items, json_is_number, json_members, json_string_value, json_u64,
    member_lookup, members_view, parse_json_array, parse_json_members, parse_json_string, parse_json_u64,
    texts_view,
};
use crate::text::{nat_str, push_str, u64_to_string};
use crate::decimal::{parse_dec, parse_u32_text, parse_u64_text};
use crate::proto::telemetry::{gpu_view, gpu_views, Gpu, GpuVendor, GpuView};
use crate::text::has_prefix;
use crate::trust::identity::{trim, trim_line};

verus! {

/// How deep the search descends: `serde_json` refuses documents nested
/// deeper than this, so no value it hands out is deeper.
pub const SEARCH_DEPTH: u32 = 128;

/// The verbatim values of a list of members, in order.
pub open spec fn member_values(ms: Seq<(Seq<char>, Seq<char>)>) -> Seq<Seq<char>> {
    ms.map_values(|m: (Seq<char>, Seq<char>)| m.1)
}

/// Depth-first search for `key` in the JSON value `v`: in an object, its own
/// member first, then each member's value in key order; in an array, each
/// element in order. `depth` bounds the levels searched.
pub open spec fn deep_find(v: Seq<char>, key: Seq<char>, depth: nat) -> Option<Seq<char>>
    decreases depth, 0nat,
{
    if depth == 0 {
        None
    } else {
        match json_members(encode_utf8(v)) {
            Some(ms) => match member_lookup(ms, key) {
                Some(hit) => Some(hit),
                None => first_hit(member_values(ms), key, (depth - 1) as nat),
            },
            None => match json_array_items(encode_utf8(v)) {
                Some(items) => first_hit(items, key, (depth - 1) as nat),
                None => None,
            },
        }
    }
}

/// The first hit of the search in `children`, in order.
pub open spec fn first_hit(children: Seq<Seq<char>>, key: Seq<char>, depth: nat) -> Option<Seq<char>>
    decreases depth, children.len() + 1,
{
    if children.len() == 0 {
        None
    } else {
        match deep_find(children[0], key, depth) {
            Some(hit) => Some(hit),
            None => first_hit(children.drop_first(), key, depth),
        }
    }
}

/// The string found under `key`, if the value found is a JSON string.
pub open spec fn str_at(v: Seq<char>, key: Seq<char>) -> Option<Seq<char>> {
    match deep_find(v, key, SEARCH_DEPTH as nat) {
        Some(hit) => json_string_value(hit),
        None => None,
    }
}

/// `a`, else `b`.
pub open spec fn either(a: Option<Seq<char>>, b: Option<Seq<char>>) -> Option<Seq<char>> {
    if a is Some {
        a
    } else {
        b
    }
}

/// A byte count found under `key`: a string holding a decimal `u64`
/// (surrounding whitespace ignored), or an unsigned JSON number.
pub open spec fn num_at(v: Seq<char>, key: Seq<char>) -> Option<u64> {
    match deep_find(v, key, SEARCH_DEPTH as nat) {
        None => None,
        Some(hit) => match json_string_value(hit) {
            Some(s) => match parse_dec(trim(s), 0x1_0000_0000_0000_0000) {
                Some(n) => Some(n as u64),
                None => None,
            },
            None => json_u64(hit),
        },
    }
}

/// The utilization percentage of a card: the `GPU use (%)` string as a `u32`.
pub open spec fn util_of(card: Seq<char>) -> Option<u32> {
    match str_at(card, "GPU use (%)"@) {
        Some(s) => match parse_dec(trim(s), 0x1_0000_0000) {
            Some(n) => Some(n as u32),
            None => None,
        },
        None => None,
    }
}

/// The name of a card, `AMD GPU` when none is given.
pub open spec fn card_name(card: Seq<char>) -> Seq<char> {
    match either(
        str_at(card, "Card Series"@),
        either(str_at(card, "Device Name"@), either(str_at(card, "Market Name"@), str_at(card, "Card Model"@))),
    ) {
        Some(n) => n,
        None => "AMD GPU"@,
    }
}

/// The identifier of a card, its key when none is given.
pub open spec fn card_uuid(key: Seq<char>, card: Seq<char>) -> Seq<char> {
    match either(str_at(card, "Unique ID"@), either(str_at(card, "Serial Number"@), str_at(card, "PCI Bus"@))) {
        Some(u) => u,
        None => key,
    }
}

/// The GPU record of one card.
pub open spec fn rocm_card(key: Seq<char>, card: Seq<char>) -> GpuView {
    GpuView {
        name: card_name(card),
        vram_bytes: num_at(card, "VRAM Total Memory (B)"@),
        vram_used_bytes: num_at(card, "VRAM Total Used Memory (B)"@),
        utilization_percent: util_of(card),
        uuid: card_uuid(key, card),
        vendor: GpuVendor::Amd,
        vendor_id: Some(0x1002),
    }
}

/// The GPU records of the members whose key starts with `card`, in key order.
pub open spec fn rocm_cards(ms: Seq<(Seq<char>, Seq<char>)>) -> Seq<GpuView>
    decreases ms.len(),
{
    if ms.len() == 0 {
        seq![]
    } else if "card"@.is_prefix_of(ms.last().0) {
        rocm_cards(ms.drop_last()).push(rocm_card(ms.last().0, ms.last().1))
    } else {
        rocm_cards(ms.drop_last())
    }
}

/// The GPUs of a `rocm-smi --json` report: nothing unless it is an object.
pub open spec fn spec_rocm_smi(json: Seq<char>) -> Seq<GpuView> {
    match json_members(encode_utf8(json)) {
        Some(ms) => rocm_cards(ms),
        None => seq![],
    }
}

fn member_values_exec(ms: &Vec<(String, String)>) -> (r: Vec<String>)
    ensures
        texts_view(r@) == member_values(members_view(ms@)),
{
    let ghost mvv = member_values(members_view(ms@));
    let mut out: Vec<String> = Vec::new();
    let mut i: usize = 0;
    proof {
        assert(texts_view(out@) =~= mvv.subrange(0, 0));
    }
    while i < ms.len()
        invariant
            i <= ms@.len(),
            mvv == member_values(members_view(ms@)),
            mvv.len() == ms@.len(),
            texts_view(out@) == mvv.subrange(0, i as int),
        decreases ms@.len() - i,
    {
        let v = ms[i].1.clone();
        let ghost before = out@;
        proof {
            assert(members_view(ms@)[i as int] == (ms@[i as int].0@, ms@[i as int].1@));
            assert(mvv[i as int] == v@);
        }
        out.push(v);
        proof {
            assert(texts_view(out@) =~= texts_view(before).push(v@));
            assert(mvv.subrange(0, i + 1) =~= mvv.subrange(0, i as int).push(v@));
        }
        i = i + 1;
    }
    proof {
        assert(mvv.subrange(0, ms@.len() as int) =~= mvv);
    }
    out
}

fn deep_find_exec(v: &str, key: &str, depth: u32) -> (r: Option<String>)
    ensures
        match r {
            Some(h) => deep_find(v@, key@, depth as nat) == Some(h@),
            None => deep_find(v@, key@, depth as nat) is None,
        },
    decreases depth, 0nat,
{
    if depth == 0 {
        return None;
    }
    match parse_json_members(v.as_bytes()) {
        Some(ms) => match find_member(&ms, key) {
            Some(hit) => Some(hit),
            None => {
                let children = member_values_exec(&ms);
                first_hit_exec(&children, key, depth - 1)
            },
        },
        None => match parse_json_array(v.as_bytes()) {
            Some(items) => first_hit_exec(&items, key, depth - 1),
            None => None,
        },
    }
}

fn first_hit_exec(children: &Vec<String>, key: &str, depth: u32) -> (r: Option<String>)
    ensures
        match r {
            Some(h) => first_hit(texts_view(children@), key@, depth as nat) == Some(h@),
            None => first_hit(texts_view(children@), key@, depth as nat) is None,
        },
    decreases depth, children@.len() + 1,
{
    let ghost cs = texts_view(children@);
    let mut i: usize = 0;
    proof {
        assert(cs.skip(0) =~= cs);
    }
    while i < children.len()
        invariant
            i <= children@.len(),
            cs == texts_view(children@),
            first_hit(cs, key@, depth as nat) == first_hit(cs.skip(i as int), key@, depth as nat),
        decreases children@.len() - i,
    {
        proof {
            assert(cs.skip(i as int)[0] == children@[i as int]@);
            assert(cs.skip(i as int).drop_first() =~= cs.skip(i + 1));
        }
        match deep_find_exec(children[i].as_str(), key, depth) {
            Some(hit) => {
                return Some(hit);
            },
            None => {},
        }
        i = i + 1;
    }
    proof {
        assert(cs.skip(i as int).len() == 0);
    }
    None
}

fn str_at_exec(v: &str, key: &str) -> (r: Option<String>)
    ensures
        match r {
            Some(s) => str_at(v@, key@) == Some(s@),
            None => str_at(v@, key@) is None,
        },
{
    match deep_find_exec(v, key, SEARCH_DEPTH) {
        Some(hit) => parse_json_string(hit.as_str()),
        None => None,
    }
}

fn num_at_exec(v: &str, key: &str) -> (r: Option<u64>)
    ensures
        r == num_at(v@, key@),
{
    match deep_find_exec(v, key, SEARCH_DEPTH) {
        None => None,
        Some(hit) => match parse_json_string(hit.as_str()) {
            Some(s) => {
                let t = trim_line(s.as_str());
                parse_u64_text(t.as_str())
            },
            None => parse_json_u64(hit.as_str()),
        },
    }
}

fn first_str(v: &str, keys: &Vec<&str>) -> (r: Option<String>)
    requires
        keys@.len() >= 1,
    ensures
        keys@.len() == 1 ==> opt_view(r) == str_at(v@, keys@[0]@),
        keys@.len() == 2 ==> opt_view(r) == either(str_at(v@, keys@[0]@), str_at(v@, keys@[1]@)),
        keys@.len() == 3 ==> opt_view(r) == either(
            str_at(v@, keys@[0]@),
            either(str_at(v@, keys@[1]@), str_at(v@, keys@[2]@)),
        ),
        keys@.len() == 4 ==> opt_view(r) == either(
            str_at(v@, keys@[0]@),
            either(str_at(v@, keys@[1]@), either(str_at(v@, keys@[2]@), str_at(v@, keys@[3]@))),
        ),
{
    let mut i: usize = keys.len();
    let mut acc: Option<String> = None;
    while i > 0
        invariant
            i <= keys@.len(),
            keys@.len() >= 1,
            opt_view(acc) == first_str_from(v@, keys@, i as int),
        decreases i,
    {
        i = i - 1;
        match str_at_exec(v, keys[i]) {
            Some(s) => {
                acc = Some(s);
            },
            None => {},
        }
    }
    proof {
        reveal_with_fuel(first_str_from, 5);
    }
    acc
}

/// The view of an optional string.
pub open spec fn opt_view(o: Option<String>) -> Option<Seq<char>> {
    match o {
        Some(s) => Some(s@),
        None => None,
    }
}

/// The first string found under `keys[i..]`.
pub open spec fn first_str_from(v: Seq<char>, keys: Seq<&str>, i: int) -> Option<Seq<char>>
    decreases keys.len() - i,
{
    if i < 0 || i >= keys.len() {
        None
    } else {
        either(str_at(v, keys[i]@), first_str_from(v, keys, i + 1))
    }
}

fn card_exec(key: &str, card: &str) -> (g: Gpu)
    ensures
        gpu_view(g) == rocm_card(key@, card@),
{
    proof {
        reveal_strlit("AMD GPU");
    }
    let names: Vec<&str> = vec!["Card Series", "Device Name", "Market Name", "Card Model"];
    let ids: Vec<&str> = vec!["Unique ID", "Serial Number", "PCI Bus"];
    let name = match first_str(card, &names) {
        Some(n) => n,
        None => String::from_str("AMD GPU"),
    };
    let uuid = match first_str(card, &ids) {
        Some(u) => u,
        None => String::from_str(key),
    };
    let util: Option<u32> = match str_at_exec(card, "GPU use (%)") {
        Some(s) => {
            let t = trim_line(s.as_str());
            parse_u32_text(t.as_str())
        },
        None => None,
    };
    Gpu {
        name,
        vram_bytes: num_at_exec(card, "VRAM Total Memory (B)"),
        vram_used_bytes: num_at_exec(card, "VRAM Total Used Memory (B)"),
        utilization_percent: util,
        uuid,
        vendor: GpuVendor::Amd,
        vendor_id: Some(0x1002),
    }
}

/// Parse legacy `rocm-smi --json`: one GPU per member whose key starts with
/// `card`, in key order.
pub fn parse_rocm_smi_json(json: &str) -> (r: Vec<Gpu>)
    ensures
        gpu_views(r@) == spec_rocm_smi(json@),
{
    let mut out: Vec<Gpu> = Vec::new();
    proof {
        assert(gpu_views(out@) =~= Seq::<GpuView>::empty());
    }
    let ms = match parse_json_members(json.as_bytes()) {
        Some(ms) => ms,
        None => return out,
    };
    let ghost mv = members_view(ms@);
    proof {
        assert(mv.subrange(0, 0) =~= Seq::<(Seq<char>, Seq<char>)>::empty());
    }
    let mut i: usize = 0;
    while i < ms.len()
        invariant
            i <= ms@.len(),
            mv == members_view(ms@),
            spec_rocm_smi(json@) == rocm_cards(mv),
            gpu_views(out@) == rocm_cards(mv.subrange(0, i as int)),
        decreases ms@.len() - i,
    {
        let ghost before = out@;
        proof {
            assert(mv.subrange(0, i + 1).drop_last() =~= mv.subrange(0, i as int));
            assert(mv.subrange(0, i + 1).last() == (ms@[i as int].0@, ms@[i as int].1@));
        }
        if has_prefix(ms[i].0.as_str(), "card") {
            let g = card_exec(ms[i].0.as_str(), ms[i].1.as_str());
            out.push(g);
            proof {
                assert(gpu_views(out@) =~= gpu_views(before).push(gpu_view(g)));
            }
        }
        i = i + 1;
    }
    proof {
        assert(mv.subrange(0, ms@.len() as int) =~= mv);
    }
    out
}

/// The AMD GPUs: those of the `amd-smi` report when it names any, else those
/// of the `rocm-smi` report when that tool ran, else none.
pub fn detect(amd_smi: Vec<Gpu>, rocm_smi: Option<&str>) -> (r: Vec<Gpu>)
    ensures
        amd_smi@.len() > 0 ==> r@ == amd_smi@,
        amd_smi@.len() == 0 ==> gpu_views(r@) == match rocm_smi {
            Some(j) => spec_rocm_smi(j@),
            None => Seq::<GpuView>::empty(),
        },
{
    if amd_smi.len() > 0 {
        return amd_smi;
    }
    match rocm_smi {
        Some(j) => parse_rocm_smi_json(j),
        None => {
            let r: Vec<Gpu> = Vec::new();
            proof {
                assert(gpu_views(r@) =~= Seq::<GpuView>::empty());
            }
            r
        },
    }
}


// --- amd-smi ------------------------------------------------------------------------

/// A number found under a key: the value itself when it is a JSON number, else
/// its `value` member when that is one (amd-smi's `{value, unit}` wrapper).
pub open spec fn num_text_of(hit: Seq<char>) -> Option<Seq<char>> {
    if json_is_number(hit) {
        Some(hit)
    } else {
        match json_members(encode_utf8(hit)) {
            Some(ms) => match member_lookup(ms, "value"@) {
                Some(t) => if json_is_number(t) {
                    Some(t)
                } else {
                    None
                },
                None => None,
            },
            None => None,
        }
    }
}

/// The JSON text of the number found under `key` by the depth-first search.
pub open spec fn num_text_at(v: Seq<char>, key: Seq<char>) -> Option<Seq<char>> {
    match deep_find(v, key, SEARCH_DEPTH as nat) {
        Some(hit) => num_text_of(hit),
        None => None,
    }
}

/// The `gpu` index of an amd-smi entry: its own `gpu` member as a `u64`.
pub open spec fn gpu_index(entry: Seq<char>) -> Option<u64> {
    match json_members(encode_utf8(entry)) {
        Some(ms) => match member_lookup(ms, "gpu"@) {
            Some(t) => json_u64(t),
            None => None,
        },
        None => None,
    }
}

/// The first metrics entry whose `gpu` index is `i`.
pub open spec fn metric_for(metrics: Seq<Seq<char>>, i: u64) -> Option<Seq<char>>
    decreases metrics.len(),
{
    if metrics.len() == 0 {
        None
    } else if gpu_index(metrics[0]) == Some(i) {
        Some(metrics[0])
    } else {
        metric_for(metrics.drop_first(), i)
    }
}

/// The name of an amd-smi entry, `AMD GPU` when none is given.
pub open spec fn amd_name(e: Seq<char>) -> Seq<char> {
    match either(str_at(e, "market_name"@), either(str_at(e, "product_name"@), str_at(e, "name"@))) {
        Some(n) => n,
        None => "AMD GPU"@,
    }
}

/// The identifier of an amd-smi entry, `amd-gpu-<index>` (index 0 when
/// absent) when none is given.
pub open spec fn amd_uuid(e: Seq<char>, idx: Option<u64>) -> Seq<char> {
    match either(
        str_at(e, "uuid"@),
        either(str_at(e, "serial"@), either(str_at(e, "bdf"@), str_at(e, "market_name"@))),
    ) {
        Some(u) => u,
        None => "amd-gpu-"@ + nat_str(
            match idx {
                Some(i) => i as nat,
                None => 0,
            },
        ),
    }
}

/// The total VRAM (decimal megabytes) of an amd-smi entry, as JSON text.
pub open spec fn amd_total(e: Seq<char>) -> Option<Seq<char>> {
    either(
        num_text_at(e, "size"@),
        either(num_text_at(e, "total"@), either(num_text_at(e, "vram_total"@), num_text_at(e, "total_vram"@))),
    )
}

/// The graphics activity (percent) of a metrics entry, as JSON text.
pub open spec fn amd_activity(m: Seq<char>) -> Option<Seq<char>> {
    either(
        num_text_at(m, "gfx_activity"@),
        either(num_text_at(m, "gfx"@), either(num_text_at(m, "gpu_activity"@), num_text_at(m, "usage"@))),
    )
}

/// The used VRAM (decimal megabytes) of a metrics entry, as JSON text.
pub open spec fn amd_used(m: Seq<char>) -> Option<Seq<char>> {
    either(num_text_at(m, "used_vram"@), either(num_text_at(m, "vram_used"@), num_text_at(m, "used"@)))
}

/// What amd-smi reports of one GPU; numbers are kept as their JSON text.
#[derive(Debug, Clone)]
pub struct AmdReading {
    pub idx: Option<u64>,
    pub name: String,
    pub uuid: String,
    /// Total VRAM in decimal megabytes.
    pub total: Option<String>,
    /// Used VRAM in decimal megabytes, from the matching metrics entry.
    pub used: Option<String>,
    /// Graphics activity in percent, from the matching metrics entry.
    pub activity: Option<String>,
}

/// The content of an amd-smi reading.
pub struct AmdReadingView {
    pub idx: Option<u64>,
    pub name: Seq<char>,
    pub uuid: Seq<char>,
    pub total: Option<Seq<char>>,
    pub used: Option<Seq<char>>,
    pub activity: Option<Seq<char>>,
}

/// The content of an amd-smi reading value.
pub open spec fn amd_reading_view(r: AmdReading) -> AmdReadingView {
    AmdReadingView {
        idx: r.idx,
        name: r.name@,
        uuid: r.uuid@,
        total: opt_view(r.total),
        used: opt_view(r.used),
        activity: opt_view(r.activity),
    }
}

/// The contents of a list of amd-smi readings.
pub open spec fn amd_readings_view(v: Seq<AmdReading>) -> Seq<AmdReadingView> {
    v.map_values(|r: AmdReading| amd_reading_view(r))
}

/// The reading of one `amd-smi static` entry, with the used VRAM and activity
/// of the first metrics entry of the same `gpu` index.
pub open spec fn amd_reading(e: Seq<char>, metrics: Seq<Seq<char>>) -> AmdReadingView {
    let idx = gpu_index(e);
    let m = match idx {
        Some(i) => metric_for(metrics, i),
        None => None,
    };
    AmdReadingView {
        idx,
        name: amd_name(e),
        uuid: amd_uuid(e, idx),
        total: amd_total(e),
        used: match m {
            Some(mm) => amd_used(mm),
            None => None,
        },
        activity: match m {
            Some(mm) => amd_activity(mm),
            None => None,
        },
    }
}

/// The text of an optional string slice.
pub open spec fn opt_str_view(o: Option<&str>) -> Option<Seq<char>> {
    match o {
        Some(t) => Some(t@),
        None => None,
    }
}

/// The elements of the metrics report: none unless it is a JSON array.
pub open spec fn metric_items(metric: Option<Seq<char>>) -> Seq<Seq<char>> {
    match metric {
        Some(t) => match json_array_items(encode_utf8(t)) {
            Some(v) => v,
            None => seq![],
        },
        None => seq![],
    }
}

/// The readings of an `amd-smi static --json` report (one per element; none
/// unless it is a JSON array) with the optional `amd-smi metric --json`.
pub open spec fn spec_amd_smi(stat: Seq<char>, metric: Option<Seq<char>>) -> Seq<AmdReadingView> {
    match json_array_items(encode_utf8(stat)) {
        Some(items) => items.map_values(|e: Seq<char>| amd_reading(e, metric_items(metric))),
        None => seq![],
    }
}

fn num_text_exec(v: &str, key: &str) -> (r: Option<String>)
    ensures
        opt_view(r) == num_text_at(v@, key@),
{
    let hit = match deep_find_exec(v, key, SEARCH_DEPTH) {
        Some(h) => h,
        None => return None,
    };
    if is_json_number(hit.as_str()) {
        return Some(hit);
    }
    match parse_json_members(hit.as_str().as_bytes()) {
        Some(ms) => match find_member(&ms, "value") {
            Some(t) => if is_json_number(t.as_str()) {
                Some(t)
            } else {
                None
            },
            None => None,
        },
        None => None,
    }
}

/// The first number found under `keys[i..]`.
pub open spec fn first_num_from(v: Seq<char>, keys: Seq<&str>, i: int) -> Option<Seq<char>>
    decreases keys.len() - i,
{
    if i < 0 || i >= keys.len() {
        None
    } else {
        either(num_text_at(v, keys[i]@), first_num_from(v, keys, i + 1))
    }
}

fn first_num(v: &str, keys: &Vec<&str>) -> (r: Option<String>)
    requires
        keys@.len() >= 1,
    ensures
        keys@.len() == 3 ==> opt_view(r) == either(
            num_text_at(v@, keys@[0]@),
            either(num_text_at(v@, keys@[1]@), num_text_at(v@, keys@[2]@)),
        ),
        keys@.len() == 4 ==> opt_view(r) == either(
            num_text_at(v@, keys@[0]@),
            either(num_text_at(v@, keys@[1]@), either(num_text_at(v@, keys@[2]@), num_text_at(v@, keys@[3]@))),
        ),
{
    let mut i: usize = keys.len();
    let mut acc: Option<String> = None;
    while i > 0
        invariant
            i <= keys@.len(),
            keys@.len() >= 1,
            opt_view(acc) == first_num_from(v@, keys@, i as int),
        decreases i,
    {
        i = i - 1;
        match num_text_exec(v, keys[i]) {
            Some(s) => {
                acc = Some(s);
            },
            None => {},
        }
    }
    proof {
        reveal_with_fuel(first_num_from, 5);
    }
    acc
}

fn gpu_index_exec(entry: &str) -> (r: Option<u64>)
    ensures
        r == gpu_index(entry@),
{
    match parse_json_members(entry.as_bytes()) {
        Some(ms) => match find_member(&ms, "gpu") {
            Some(t) => parse_json_u64(t.as_str()),
            None => None,
        },
        None => None,
    }
}

fn metric_for_exec(metrics: &Vec<String>, i: u64) -> (r: Option<usize>)
    ensures
        match r {
            Some(j) => j < metrics@.len() && metric_for(texts_view(metrics@), i) == Some(metrics@[j as int]@),
            None => metric_for(texts_view(metrics@), i) is None,
        },
{
    let ghost ms = texts_view(metrics@);
    let mut j: usize = 0;
    proof {
        assert(ms.skip(0) =~= ms);
    }
    while j < metrics.len()
        invariant
            j <= metrics@.len(),
            ms == texts_view(metrics@),
            metric_for(ms, i) == metric_for(ms.skip(j as int), i),
        decreases metrics@.len() - j,
    {
        proof {
            assert(ms.skip(j as int)[0] == metrics@[j as int]@);
            assert(ms.skip(j as int).drop_first() =~= ms.skip(j + 1));
        }
        if gpu_index_exec(metrics[j].as_str()) == Some(i) {
            return Some(j);
        }
        j = j + 1;
    }
    proof {
        assert(ms.skip(j as int).len() == 0);
    }
    None
}

fn amd_reading_exec(e: &str, metrics: &Vec<String>) -> (r: AmdReading)
    ensures
        amd_reading_view(r) == amd_reading(e@, texts_view(metrics@)),
{
    proof {
        reveal_strlit("AMD GPU");
        reveal_strlit("amd-gpu-");
    }
    let idx = gpu_index_exec(e);
    let names: Vec<&str> = vec!["market_name", "product_name", "name"];
    let ids: Vec<&str> = vec!["uuid", "serial", "bdf", "market_name"];
    let totals: Vec<&str> = vec!["size", "total", "vram_total", "total_vram"];
    let activities: Vec<&str> = vec!["gfx_activity", "gfx", "gpu_activity", "usage"];
    let useds: Vec<&str> = vec!["used_vram", "vram_used", "used"];
    let name = match first_str(e, &names) {
        Some(n) => n,
        None => String::from_str("AMD GPU"),
    };
    let uuid = match first_str(e, &ids) {
        Some(u) => u,
        None => {
            let n: u64 = match idx {
                Some(i) => i,
                None => 0,
            };
            let mut u = String::from_str("amd-gpu-");
            let d = u64_to_string(n);
            push_str(&mut u, d.as_str());
            u
        },
    };
    let total = first_num(e, &totals);
    let m = match idx {
        Some(i) => metric_for_exec(metrics, i),
        None => None,
    };
    let (used, activity) = match m {
        Some(j) => (first_num(metrics[j].as_str(), &useds), first_num(metrics[j].as_str(), &activities)),
        None => (None, None),
    };
    AmdReading { idx, name, uuid, total, used, activity }
}

/// Read `amd-smi static --json` (and `amd-smi metric --json` when it ran):
/// one reading per element of the static report, in order; none unless that
/// report is a JSON array. Numbers are handed out as their JSON text.
pub fn amd_smi_readings(static_json: &str, metric_json: Option<&str>) -> (r: Vec<AmdReading>)
    ensures
        amd_readings_view(r@) == spec_amd_smi(static_json@, opt_str_view(metric_json)),
{
    let mut out: Vec<AmdReading> = Vec::new();
    let items = match parse_json_array(static_json.as_bytes()) {
        Some(v) => v,
        None => {
            proof {
                assert(amd_readings_view(out@) =~= Seq::<AmdReadingView>::empty());
            }
            return out;
        },
    };
    let metrics: Vec<String> = match metric_json {
        Some(t) => match parse_json_array(t.as_bytes()) {
            Some(v) => v,
            None => Vec::new(),
        },
        None => Vec::new(),
    };
    let ghost mi = metric_items(opt_str_view(metric_json));
    proof {
        assert(texts_view(metrics@) =~= mi);
    }
    let ghost iv = texts_view(items@);
    let mut i: usize = 0;
    while i < items.len()
        invariant
            i <= items@.len(),
            iv == texts_view(items@),
            json_array_items(encode_utf8(static_json@)) == Some(iv),
            texts_view(metrics@) == mi,
            amd_readings_view(out@) == iv.subrange(0, i as int).map_values(|e: Seq<char>| amd_reading(e, mi)),
        decreases items@.len() - i,
    {
        let ghost before = out@;
        let r = amd_reading_exec(items[i].as_str(), &metrics);
        out.push(r);
        proof {
            assert(iv[i as int] == items@[i as int]@);
            assert(amd_readings_view(out@) =~= amd_readings_view(before).push(amd_reading_view(r)));
            assert(iv.subrange(0, i + 1).map_values(|e: Seq<char>| amd_reading(e, mi)) =~= iv.subrange(
                0,
                i as int,
            ).map_values(|e: Seq<char>| amd_reading(e, mi)).push(amd_reading(iv[i as int], mi)));
        }
        i = i + 1;
    }
    proof {
        assert(iv.subrange(0, items@.len() as int) =~= iv);
    }
    out
}

} // verus!
