//! GPU inventory from the operating system, for GPUs that no vendor tool
//! reports: Windows `Win32_VideoController` (CIM JSON) and macOS
//! `system_profiler SPDisplaysDataType -json`.

use vstd::prelude::*;
use vstd::utf8::encode_utf8;
use crate::codec::{
    find_member, json_array_items, json_members, json_string_value, json_u64, member_lookup, members_view,
    parse_json_array, parse_json_members, parse_json_string, parse_json_u64, texts_view,
};
use crate::proto::telemetry::{gpu_view, gpu_views, vendor_of_pci, Gpu, GpuVendor, GpuView};
use crate::trust::identity::{trim, trim_line};

verus! {

/// What `str::to_uppercase` makes of a text (Unicode case mapping).
pub uninterp spec fn unicode_upper(s: Seq<char>) -> Seq<char>;

/// What `str::to_lowercase` makes of a text (Unicode case mapping).
pub uninterp spec fn unicode_lower(s: Seq<char>) -> Seq<char>;

/// `str::to_uppercase`: named `unicode_upper(s)`, the mapping the standard
/// library documents (locale-independent).
#[verifier::external_body]
fn to_upper(s: &str) -> (r: String)
    ensures
        r@ == unicode_upper(s@),
{
    s.to_uppercase()
}

/// `str::to_lowercase`: named `unicode_lower(s)`, the mapping the standard
/// library documents (locale-independent).
#[verifier::external_body]
fn to_lower(s: &str) -> (r: String)
    ensures
        r@ == unicode_lower(s@),
{
    s.to_lowercase()
}

/// Whether `pat` occurs in `s` at `i`.
pub open spec fn occurs_at(s: Seq<char>, pat: Seq<char>, i: int) -> bool {
    0 <= i && i + pat.len() <= s.len() && s.subrange(i, i + pat.len()) == pat
}

/// Whether `pat` occurs in `s`.
pub open spec fn has_text(s: Seq<char>, pat: Seq<char>) -> bool {
    exists|i: int| #[trigger] occurs_at(s, pat, i)
}

/// The first position of `pat` in `s`.
pub open spec fn first_at(s: Seq<char>, pat: Seq<char>) -> Option<int> {
    if has_text(s, pat) {
        Some(choose|i: int| #[trigger] occurs_at(s, pat, i) && forall|j: int| 0 <= j < i ==> !occurs_at(s, pat, j))
    } else {
        None
    }
}

/// The value of a hexadecimal digit.
pub open spec fn hex_value(c: char) -> Option<nat> {
    if '0' <= c && c <= '9' {
        Some((c as nat - '0' as nat) as nat)
    } else if 'a' <= c && c <= 'f' {
        Some((c as nat - 'a' as nat + 10) as nat)
    } else if 'A' <= c && c <= 'F' {
        Some((c as nat - 'A' as nat + 10) as nat)
    } else {
        None
    }
}

/// The value of a string of hexadecimal digits, most significant first.
pub open spec fn hex_digits_value(s: Seq<char>) -> Option<nat>
    decreases s.len(),
{
    if s.len() == 0 {
        Some(0)
    } else {
        match (hex_digits_value(s.drop_last()), hex_value(s.last())) {
            (Some(a), Some(d)) => Some(a * 16 + d),
            _ => None,
        }
    }
}

/// What `u16::from_str_radix(s, 16)` gives for at most four characters: an
/// optional `+` then at least one hexadecimal digit.
pub open spec fn hex_u16(s: Seq<char>) -> Option<nat> {
    let body = if s.len() > 0 && s[0] == '+' { s.drop_first() } else { s };
    if body.len() == 0 {
        None
    } else {
        hex_digits_value(body)
    }
}

/// The PCI vendor id after `VEN_` in a Windows PNPDeviceID (case-insensitive
/// marker), read from up to four following characters as hexadecimal.
pub open spec fn pnp_vendor_id(pnp: Seq<char>) -> Option<u16> {
    let up = unicode_upper(pnp);
    match first_at(up, "VEN_"@) {
        None => None,
        Some(i) => {
            let rest = up.skip(i + 4);
            let hex = if rest.len() > 4 { rest.take(4) } else { rest };
            match hex_u16(hex) {
                Some(v) => if v < 0x1_0000 { Some(v as u16) } else { None },
                None => None,
            }
        },
    }
}

/// The vendor of a PNPDeviceID (`Other` when it names no vendor id).
pub open spec fn pnp_vendor(pnp: Seq<char>) -> GpuVendor {
    match pnp_vendor_id(pnp) {
        Some(id) => vendor_of_pci(id),
        None => GpuVendor::Other,
    }
}

fn occurs_exec(s: &Vec<char>, pat: &Vec<char>, i: usize) -> (r: bool)
    ensures
        r == occurs_at(s@, pat@, i as int),
{
    if i > s.len() || pat.len() > s.len() - i {
        return false;
    }
    let mut k: usize = 0;
    while k < pat.len()
        invariant
            i + pat@.len() <= s.len(),
            k <= pat@.len(),
            forall|j: int| 0 <= j < k ==> s@[i + j] == pat@[j],
        decreases pat@.len() - k,
    {
        assert(i + k < s@.len());
        if s[i + k] != pat[k] {
            proof {
                assert(s@.subrange(i as int, i + pat@.len())[k as int] != pat@[k as int]);
            }
            return false;
        }
        k = k + 1;
    }
    proof {
        assert(s@.subrange(i as int, i + pat@.len()) =~= pat@);
    }
    true
}

fn hex_value_exec(c: char) -> (r: Option<u32>)
    ensures
        match r {
            Some(v) => hex_value(c) == Some(v as nat) && v < 16,
            None => hex_value(c) is None,
        },
{
    if '0' <= c && c <= '9' {
        Some((c as u32) - ('0' as u32))
    } else if 'a' <= c && c <= 'f' {
        Some((c as u32) - ('a' as u32) + 10)
    } else if 'A' <= c && c <= 'F' {
        Some((c as u32) - ('A' as u32) + 10)
    } else {
        None
    }
}

fn hex_u16_exec(s: &Vec<char>, from: usize, to: usize) -> (r: Option<u16>)
    requires
        from <= to <= s@.len(),
        to - from <= 4,
    ensures
        match r {
            Some(v) => hex_u16(s@.subrange(from as int, to as int)) == Some(v as nat),
            None => hex_u16(s@.subrange(from as int, to as int)) is None,
        },
{
    let ghost h = s@.subrange(from as int, to as int);
    let mut start = from;
    if from < to && s[from] == '+' {
        start = from + 1;
    }
    let ghost body = if h.len() > 0 && h[0] == '+' { h.drop_first() } else { h };
    proof {
        assert(body =~= s@.subrange(start as int, to as int));
    }
    if start >= to {
        return None;
    }
    let mut acc: u32 = 0;
    let mut i = start;
    proof {
        assert(s@.subrange(start as int, start as int) =~= Seq::<char>::empty());
    }
    while i < to
        invariant
            start < to,
            start <= i <= to,
            to <= s@.len(),
            to - start <= 4,
            h == s@.subrange(from as int, to as int),
            body == (if h.len() > 0 && h[0] == '+' { h.drop_first() } else { h }),
            body == s@.subrange(start as int, to as int),
            hex_digits_value(s@.subrange(start as int, i as int)) == Some(acc as nat),
            acc < pow16(i - start),
        decreases to - i,
    {
        let ghost p = s@.subrange(start as int, i + 1);
        proof {
            assert(p.drop_last() =~= s@.subrange(start as int, i as int));
            assert(p.last() == s@[i as int]);
            assert(body[i - start] == s@[i as int]);
        }
        match hex_value_exec(s[i]) {
            None => {
                proof {
                    lemma_hex_prefix_none(body, (i - start) as nat);
                }
                return None;
            },
            Some(d) => {
                proof {
                    lemma_pow16_step((i - start) as nat);
                    lemma_pow16_bound((i + 1 - start) as nat);
                    assert(acc * 16 + d < 16 * pow16(i - start)) by (nonlinear_arith)
                        requires
                            acc < pow16(i - start),
                            d < 16,
                    ;
                }
                acc = acc * 16 + d;
            },
        }
        i = i + 1;
    }
    proof {
        lemma_pow16_bound((to - start) as nat);
    }
    Some(acc as u16)
}

/// `16^k`.
pub open spec fn pow16(k: int) -> nat
    decreases k,
{
    if k <= 0 {
        1
    } else {
        16 * pow16(k - 1)
    }
}

proof fn lemma_pow16_step(k: nat)
    ensures
        pow16(k + 1 as int) == 16 * pow16(k as int),
{
}

proof fn lemma_pow16_bound(k: nat)
    requires
        k <= 4,
    ensures
        pow16(k as int) <= 0x1_0000,
{
    reveal_with_fuel(pow16, 5);
}

/// A string with a non-digit in its first `k + 1` characters has no value.
proof fn lemma_hex_prefix_none(s: Seq<char>, k: nat)
    requires
        k < s.len(),
        hex_value(s[k as int]) is None,
    ensures
        hex_digits_value(s) is None,
    decreases s.len(),
{
    if k + 1 < s.len() {
        lemma_hex_prefix_none(s.drop_last(), k);
    }
}

/// Extract a `VEN_XXXX` PCI vendor id (hex) from a Windows PNPDeviceID.
pub fn vendor_id_from_pnp(pnp: &str) -> (r: Option<u16>)
    ensures
        r == pnp_vendor_id(pnp@),
{
    proof {
        reveal_strlit("VEN_");
    }
    let upt = to_upper(pnp);
    let up = chars_of(upt.as_str());
    let pat: Vec<char> = vec!['V', 'E', 'N', '_'];
    proof {
        assert(pat@ =~= "VEN_"@);
        assert(pat@.len() == 4);
    }
    let n = up.len();
    let mut i: usize = 0;
    while i < n
        invariant
            n == up@.len(),
            i <= n,
            pat@ == "VEN_"@,
            pat@.len() == 4,
            up@ == unicode_upper(pnp@),
            forall|j: int| 0 <= j < i ==> !occurs_at(up@, pat@, j),
        decreases n - i,
    {
        if occurs_exec(&up, &pat, i) {
            proof {
                let w = choose|w: int| #[trigger] occurs_at(up@, pat@, w) && forall|j: int| 0 <= j < w ==> !occurs_at(up@, pat@, j);
                assert(occurs_at(up@, pat@, i as int) && forall|j: int| 0 <= j < i ==> !occurs_at(up@, pat@, j));
                if w < i {
                    assert(!occurs_at(up@, pat@, w));
                } else if w > i {
                    assert(!occurs_at(up@, pat@, i as int));
                }
                assert(first_at(up@, "VEN_"@) == Some(i as int));
            }
            let from = i + 4;
            let to = if n - from > 4 { from + 4 } else { n };
            let r = hex_u16_exec(&up, from, to);
            proof {
                let rest = up@.skip(from as int);
                if rest.len() > 4 {
                    assert(rest.take(4) =~= up@.subrange(from as int, to as int));
                } else {
                    assert(rest =~= up@.subrange(from as int, to as int));
                }
            }
            proof {
                match r {
                    Some(v) => {
                        assert(hex_u16(up@.subrange(from as int, to as int)) == Some(v as nat));
                    },
                    None => {},
                }
            }
            return r;
        }
        i = i + 1;
    }
    proof {
        assert forall|j: int| !#[trigger] occurs_at(up@, pat@, j) by {
            if 0 <= j < n {
            }
        }
    }
    None
}

/// The vendor named by a PNPDeviceID.
pub fn vendor_from_pnp(pnp: &str) -> (r: GpuVendor)
    ensures
        r == pnp_vendor(pnp@),
{
    match vendor_id_from_pnp(pnp) {
        Some(id) => GpuVendor::from_pci_id(id),
        None => GpuVendor::Other,
    }
}

// --- Windows Win32_VideoController ------------------------------------------------

/// The PNPDeviceID of a controller: its string value, or empty.
pub open spec fn pnp_of(ms: Seq<(Seq<char>, Seq<char>)>) -> Seq<char> {
    match member_lookup(ms, "PNPDeviceID"@) {
        Some(t) => match json_string_value(t) {
            Some(p) => p,
            None => seq![],
        },
        None => seq![],
    }
}

/// The AdapterRAM of a controller: a positive unsigned integer, else none.
pub open spec fn adapter_ram(ms: Seq<(Seq<char>, Seq<char>)>) -> Option<u64> {
    match member_lookup(ms, "AdapterRAM"@) {
        Some(t) => match json_u64(t) {
            Some(n) => if n > 0 { Some(n) } else { None },
            None => None,
        },
        None => None,
    }
}

/// One `Win32_VideoController` entry: an object with a string `Name`.
#[verifier::opaque]
pub open spec fn win32_entry(entry: Seq<char>) -> Option<GpuView> {
    match json_members(encode_utf8(entry)) {
        None => None,
        Some(ms) => match member_lookup(ms, "Name"@) {
            None => None,
            Some(t) => match json_string_value(t) {
                None => None,
                Some(name) => Some(
                    GpuView {
                        name: trim(name),
                        vram_bytes: adapter_ram(ms),
                        vram_used_bytes: None,
                        utilization_percent: None,
                        uuid: pnp_of(ms),
                        vendor: pnp_vendor(pnp_of(ms)),
                        vendor_id: pnp_vendor_id(pnp_of(ms)),
                    },
                ),
            },
        },
    }
}

/// The GPUs of the entries that describe one, in order.
pub open spec fn win32_gpus(entries: Seq<Seq<char>>) -> Seq<GpuView>
    decreases entries.len(),
{
    if entries.len() == 0 {
        seq![]
    } else {
        match win32_entry(entries.last()) {
            Some(g) => win32_gpus(entries.drop_last()).push(g),
            None => win32_gpus(entries.drop_last()),
        }
    }
}

/// The GPUs of a `Win32_VideoController` CIM JSON report (trimmed): the
/// entries of an array, or the one object; nothing for any other text.
pub open spec fn spec_win32_video(json: Seq<char>) -> Seq<GpuView> {
    let t = trim(json);
    match json_array_items(encode_utf8(t)) {
        Some(items) => win32_gpus(items),
        None => match json_members(encode_utf8(t)) {
            Some(_) => win32_gpus(seq![t]),
            None => seq![],
        },
    }
}

fn win32_entry_exec(entry: &str) -> (r: Option<Gpu>)
    ensures
        match r {
            Some(g) => win32_entry(entry@) == Some(gpu_view(g)),
            None => win32_entry(entry@) is None,
        },
{
    proof {
        reveal(win32_entry);
    }
    let ms = match parse_json_members(entry.as_bytes()) {
        Some(ms) => ms,
        None => return None,
    };
    let name = match find_member(&ms, "Name") {
        None => return None,
        Some(t) => match parse_json_string(t.as_str()) {
            None => return None,
            Some(n) => n,
        },
    };
    let vram: Option<u64> = match find_member(&ms, "AdapterRAM") {
        Some(t) => match parse_json_u64(t.as_str()) {
            Some(n) => if n > 0 { Some(n) } else { None },
            None => None,
        },
        None => None,
    };
    let pnp: String = match find_member(&ms, "PNPDeviceID") {
        Some(t) => match parse_json_string(t.as_str()) {
            Some(p) => p,
            None => String::new(),
        },
        None => String::new(),
    };
    let vendor = vendor_from_pnp(pnp.as_str());
    let vendor_id = vendor_id_from_pnp(pnp.as_str());
    let g = Gpu {
        name: trim_line(name.as_str()),
        vram_bytes: vram,
        vram_used_bytes: None,
        utilization_percent: None,
        uuid: pnp,
        vendor,
        vendor_id,
    };
    proof {
        assert(gpu_view(g).uuid == pnp_of(members_view(ms@)));
    }
    Some(g)
}

/// Parse `Win32_VideoController` CIM JSON (single object or array).
pub fn parse_win32_video(json: &str) -> (r: Vec<Gpu>)
    ensures
        gpu_views(r@) == spec_win32_video(json@),
{
    let t = trim_line(json);
    let out: Vec<Gpu> = Vec::new();
    let items: Vec<String> = match parse_json_array(t.as_str().as_bytes()) {
        Some(v) => v,
        None => match parse_json_members(t.as_str().as_bytes()) {
            Some(_) => {
                let mut one: Vec<String> = Vec::new();
                one.push(t);
                proof {
                    assert(texts_view(one@) =~= seq![trim(json@)]);
                }
                one
            },
            None => {
                proof {
                    assert(gpu_views(out@) =~= Seq::<GpuView>::empty());
                }
                return out;
            },
        },
    };
    win32_list(&items)
}

fn win32_list(items: &Vec<String>) -> (out: Vec<Gpu>)
    ensures
        gpu_views(out@) == win32_gpus(texts_view(items@)),
{
    let mut out: Vec<Gpu> = Vec::new();
    let ghost iv = texts_view(items@);
    proof {
        assert(iv.subrange(0, 0) =~= Seq::<Seq<char>>::empty());
        assert(gpu_views(out@) =~= Seq::<GpuView>::empty());
    }
    let mut i: usize = 0;
    while i < items.len()
        invariant
            i <= items@.len(),
            iv == texts_view(items@),
            gpu_views(out@) == win32_gpus(iv.subrange(0, i as int)),
        decreases items@.len() - i,
    {
        let ghost before = out@;
        proof {
            assert(iv.subrange(0, i + 1).drop_last() =~= iv.subrange(0, i as int));
            assert(iv.subrange(0, i + 1).last() == items@[i as int]@);
        }
        match win32_entry_exec(items[i].as_str()) {
            Some(g) => {
                out.push(g);
                proof {
                    assert(gpu_views(out@) =~= gpu_views(before).push(gpu_view(g)));
                }
            },
            None => {},
        }
        i = i + 1;
    }
    proof {
        assert(iv.subrange(0, items@.len() as int) =~= iv);
    }
    out
}

// --- macOS system_profiler ----------------------------------------------------------

/// The vendor a display name points at: AMD/Radeon, NVIDIA, Apple or Intel
/// (reported as Intel), else other.
pub open spec fn name_vendor(name: Seq<char>) -> GpuVendor {
    let l = unicode_lower(name);
    if has_text(l, "amd"@) || has_text(l, "radeon"@) {
        GpuVendor::Amd
    } else if has_text(l, "nvidia"@) {
        GpuVendor::Nvidia
    } else if has_text(l, "apple"@) || has_text(l, "intel"@) {
        GpuVendor::Intel
    } else {
        GpuVendor::Other
    }
}

/// One display entry: `sppci_model` when present, else `_name`; it must be a
/// string.
pub open spec fn mac_entry(entry: Seq<char>) -> Option<GpuView> {
    match json_members(encode_utf8(entry)) {
        None => None,
        Some(ms) => {
            let t = match member_lookup(ms, "sppci_model"@) {
                Some(t) => Some(t),
                None => member_lookup(ms, "_name"@),
            };
            match t {
                None => None,
                Some(t) => match json_string_value(t) {
                    None => None,
                    Some(name) => Some(
                        GpuView {
                            name: name,
                            vram_bytes: None,
                            vram_used_bytes: None,
                            utilization_percent: None,
                            uuid: name,
                            vendor: name_vendor(name),
                            vendor_id: None,
                        },
                    ),
                },
            }
        },
    }
}

/// The GPUs of the display entries that describe one, in order.
pub open spec fn mac_gpus(entries: Seq<Seq<char>>) -> Seq<GpuView>
    decreases entries.len(),
{
    if entries.len() == 0 {
        seq![]
    } else {
        match mac_entry(entries.last()) {
            Some(g) => mac_gpus(entries.drop_last()).push(g),
            None => mac_gpus(entries.drop_last()),
        }
    }
}

/// The GPUs of a `system_profiler SPDisplaysDataType -json` report: the
/// entries of the object's `SPDisplaysDataType` array; nothing otherwise.
pub open spec fn spec_macos_displays(json: Seq<char>) -> Seq<GpuView> {
    match json_members(encode_utf8(json)) {
        None => seq![],
        Some(ms) => match member_lookup(ms, "SPDisplaysDataType"@) {
            None => seq![],
            Some(t) => match json_array_items(encode_utf8(t)) {
                None => seq![],
                Some(items) => mac_gpus(items),
            },
        },
    }
}

/// A text contains a pattern exactly when it is some text, the pattern, and
/// some text, one after the other.
pub proof fn lemma_has_text_split(s: Seq<char>, pat: Seq<char>)
    ensures
        has_text(s, pat) <==> exists|a: Seq<char>, b: Seq<char>| s == a + pat + b,
{
    if has_text(s, pat) {
        let i = choose|i: int| #[trigger] occurs_at(s, pat, i);
        let a = s.take(i);
        let b = s.skip(i + pat.len());
        assert(s =~= a + pat + b);
    }
    if exists|a: Seq<char>, b: Seq<char>| s == a + pat + b {
        let (a, b) = choose|a: Seq<char>, b: Seq<char>| s == a + pat + b;
        assert(s.subrange(a.len() as int, (a.len() + pat.len()) as int) =~= pat);
        assert(occurs_at(s, pat, a.len() as int));
    }
}

/// A display name that, lower-cased, contains `amd` or `radeon` is an AMD GPU;
/// one that contains `nvidia` and neither of those is an NVIDIA GPU; one that
/// contains `apple` or `intel` and none of those is reported as Intel; any
/// other is of another vendor.
pub proof fn lemma_name_vendor(name: Seq<char>)
    ensures
        has_text(unicode_lower(name), "amd"@) ==> name_vendor(name) == GpuVendor::Amd,
        has_text(unicode_lower(name), "radeon"@) ==> name_vendor(name) == GpuVendor::Amd,
        (has_text(unicode_lower(name), "nvidia"@) && !has_text(unicode_lower(name), "amd"@) && !has_text(
            unicode_lower(name),
            "radeon"@,
        )) ==> name_vendor(name) == GpuVendor::Nvidia,
        ((has_text(unicode_lower(name), "apple"@) || has_text(unicode_lower(name), "intel"@)) && !has_text(
            unicode_lower(name),
            "nvidia"@,
        ) && !has_text(unicode_lower(name), "amd"@) && !has_text(unicode_lower(name), "radeon"@)) ==> name_vendor(
            name,
        ) == GpuVendor::Intel,
        (!has_text(unicode_lower(name), "apple"@) && !has_text(unicode_lower(name), "intel"@) && !has_text(
            unicode_lower(name),
            "nvidia"@,
        ) && !has_text(unicode_lower(name), "amd"@) && !has_text(unicode_lower(name), "radeon"@)) ==> name_vendor(
            name,
        ) == GpuVendor::Other,
{
}

/// Every GPU read from display entries is named after its entry and carries
/// the vendor its name points at, with no memory figures.
proof fn lemma_mac_gpus_vendor(entries: Seq<Seq<char>>)
    ensures
        forall|i: int|
            0 <= i < mac_gpus(entries).len() ==> {
                let g = #[trigger] mac_gpus(entries)[i];
                &&& g.vendor == name_vendor(g.name)
                &&& g.uuid == g.name && g.vram_bytes is None && g.vram_used_bytes is None
            },
    decreases entries.len(),
{
    if entries.len() > 0 {
        lemma_mac_gpus_vendor(entries.drop_last());
    }
}

/// The macOS report's GPUs: each one whose name, lower-cased, contains `amd`
/// or `radeon` is an AMD GPU, each one whose name contains `nvidia` and
/// neither of those is an NVIDIA GPU, and each carries its name as UUID and no
/// memory figures.
pub proof fn lemma_macos_vendors(json: Seq<char>)
    ensures
        forall|i: int|
            0 <= i < spec_macos_displays(json).len() ==> {
                let g = #[trigger] spec_macos_displays(json)[i];
                let l = unicode_lower(g.name);
                &&& (has_text(l, "amd"@) || has_text(l, "radeon"@)) ==> g.vendor == GpuVendor::Amd
                &&& (has_text(l, "nvidia"@) && !has_text(l, "amd"@) && !has_text(l, "radeon"@)) ==> g.vendor
                    == GpuVendor::Nvidia
                &&& g.uuid == g.name && g.vram_bytes is None && g.vram_used_bytes is None
            },
{
    match json_members(encode_utf8(json)) {
        None => {},
        Some(ms) => match member_lookup(ms, "SPDisplaysDataType"@) {
            None => {},
            Some(t) => match json_array_items(encode_utf8(t)) {
                None => {},
                Some(items) => {
                    lemma_mac_gpus_vendor(items);
                    assert forall|i: int| 0 <= i < spec_macos_displays(json).len() implies {
                        let g = #[trigger] spec_macos_displays(json)[i];
                        let l = unicode_lower(g.name);
                        &&& (has_text(l, "amd"@) || has_text(l, "radeon"@)) ==> g.vendor == GpuVendor::Amd
                        &&& (has_text(l, "nvidia"@) && !has_text(l, "amd"@) && !has_text(l, "radeon"@)) ==> g.vendor
                            == GpuVendor::Nvidia
                        &&& g.uuid == g.name && g.vram_bytes is None && g.vram_used_bytes is None
                    } by {
                        let g = mac_gpus(items)[i];
                        lemma_name_vendor(g.name);
                    }
                },
            },
        },
    }
}

fn chars_of(s: &str) -> (r: Vec<char>)
    ensures
        r@ == s@,
{
    let n = s.unicode_len();
    let mut out: Vec<char> = Vec::new();
    let mut i: usize = 0;
    while i < n
        invariant
            n == s@.len(),
            i <= n,
            out@ == s@.subrange(0, i as int),
        decreases n - i,
    {
        out.push(s.get_char(i));
        proof {
            assert(out@ =~= s@.subrange(0, i + 1));
        }
        i = i + 1;
    }
    proof {
        assert(s@.subrange(0, n as int) =~= s@);
    }
    out
}

fn contains_exec(s: &Vec<char>, pat: &str) -> (r: bool)
    ensures
        r == has_text(s@, pat@),
{
    let p = chars_of(pat);
    let n = s.len();
    let mut i: usize = 0;
    while i < n
        invariant
            n == s@.len(),
            i <= n,
            p@ == pat@,
            forall|j: int| 0 <= j < i ==> !occurs_at(s@, p@, j),
        decreases n - i,
    {
        if occurs_exec(s, &p, i) {
            return true;
        }
        i = i + 1;
    }
    if occurs_exec(s, &p, n) {
        return true;
    }
    proof {
        assert forall|j: int| !#[trigger] occurs_at(s@, p@, j) by {
            if 0 <= j < n {
            }
        }
    }
    false
}

fn name_vendor_exec(name: &str) -> (r: GpuVendor)
    ensures
        r == name_vendor(name@),
{
    let lt = to_lower(name);
    let l = chars_of(lt.as_str());
    if contains_exec(&l, "amd") || contains_exec(&l, "radeon") {
        GpuVendor::Amd
    } else if contains_exec(&l, "nvidia") {
        GpuVendor::Nvidia
    } else if contains_exec(&l, "apple") || contains_exec(&l, "intel") {
        GpuVendor::Intel
    } else {
        GpuVendor::Other
    }
}

fn mac_entry_exec(entry: &str) -> (r: Option<Gpu>)
    ensures
        match r {
            Some(g) => mac_entry(entry@) == Some(gpu_view(g)),
            None => mac_entry(entry@) is None,
        },
{
    let ms = match parse_json_members(entry.as_bytes()) {
        Some(ms) => ms,
        None => return None,
    };
    let t = match find_member(&ms, "sppci_model") {
        Some(t) => t,
        None => match find_member(&ms, "_name") {
            Some(t) => t,
            None => return None,
        },
    };
    let name = match parse_json_string(t.as_str()) {
        Some(n) => n,
        None => return None,
    };
    let vendor = name_vendor_exec(name.as_str());
    let uuid = name.clone();
    Some(
        Gpu {
            name,
            vram_bytes: None,
            vram_used_bytes: None,
            utilization_percent: None,
            uuid,
            vendor,
            vendor_id: None,
        },
    )
}

/// Parse `system_profiler SPDisplaysDataType -json`.
pub fn parse_macos_displays(json: &str) -> (r: Vec<Gpu>)
    ensures
        gpu_views(r@) == spec_macos_displays(json@),
{
    let out: Vec<Gpu> = Vec::new();
    proof {
        assert(gpu_views(out@) =~= Seq::<GpuView>::empty());
    }
    let ms = match parse_json_members(json.as_bytes()) {
        Some(ms) => ms,
        None => return out,
    };
    let arr = match find_member(&ms, "SPDisplaysDataType") {
        Some(t) => t,
        None => return out,
    };
    let items = match parse_json_array(arr.as_str().as_bytes()) {
        Some(v) => v,
        None => return out,
    };
    mac_list(&items)
}

fn mac_list(items: &Vec<String>) -> (out: Vec<Gpu>)
    ensures
        gpu_views(out@) == mac_gpus(texts_view(items@)),
{
    let mut out: Vec<Gpu> = Vec::new();
    let ghost iv = texts_view(items@);
    proof {
        assert(iv.subrange(0, 0) =~= Seq::<Seq<char>>::empty());
        assert(gpu_views(out@) =~= Seq::<GpuView>::empty());
    }
    let mut i: usize = 0;
    while i < items.len()
        invariant
            i <= items@.len(),
            iv == texts_view(items@),
            gpu_views(out@) == mac_gpus(iv.subrange(0, i as int)),
        decreases items@.len() - i,
    {
        let ghost before = out@;
        proof {
            assert(iv.subrange(0, i + 1).drop_last() =~= iv.subrange(0, i as int));
            assert(iv.subrange(0, i + 1).last() == items@[i as int]@);
        }
        match mac_entry_exec(items[i].as_str()) {
            Some(g) => {
                out.push(g);
                proof {
                    assert(gpu_views(out@) =~= gpu_views(before).push(gpu_view(g)));
                }
            },
            None => {},
        }
        i = i + 1;
    }
    proof {
        assert(iv.subrange(0, items@.len() as int) =~= iv);
    }
    out
}

} // verus!
