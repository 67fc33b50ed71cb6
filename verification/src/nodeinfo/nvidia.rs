//! NVIDIA GPUs from `nvidia-smi` CSV output:
//!   static : `--query-gpu=uuid,name,memory.total  --format=csv,noheader,nounits`
//!   dynamic: `--query-gpu=uuid,utilization.gpu,memory.used --format=csv,noheader,nounits`
//! Memory values are integers in MiB, converted to bytes.

use vstd::prelude::*;
use crate::decimal::{parse_dec, parse_u32_text, parse_u64_text};
use crate::keyed::Keyed;
use crate::proto::telemetry::{gpu_view, gpu_views, Gpu, GpuVendor, GpuView};
use crate::text::{char_range, push_str};
use crate::trust::identity::{line_at, lines_of, trim, trim_line};

verus! {

/// One MiB.
pub const MIB: u64 = 1048576;

/// The fields of `s` between commas (at least one).
#[verifier::opaque]
pub open spec fn comma_fields(s: Seq<char>) -> Seq<Seq<char>>
    decreases s.len(),
{
    if exists|i: int| 0 <= i < s.len() && s[i] == ',' {
        let i = choose|i: int| 0 <= i < s.len() && s[i] == ',' && forall|j: int| 0 <= j < i ==> s[j] != ',';
        if 0 <= i < s.len() {
            seq![s.take(i)] + comma_fields(s.skip(i + 1))
        } else {
            seq![s]
        }
    } else {
        seq![s]
    }
}

/// The trimmed fields of a CSV row; none for a blank row.
pub open spec fn csv_fields(line: Seq<char>) -> Seq<Seq<char>> {
    if trim(line).len() == 0 {
        seq![]
    } else {
        trimmed(comma_fields(line))
    }
}

/// A MiB count in bytes, when it fits.
pub open spec fn mib_bytes(v: Option<nat>) -> Option<u64> {
    match v {
        Some(m) => Some((m * MIB) as u64),
        None => None,
    }
}

/// The MiB figure of a row's third field, when it parses, fits in bytes.
pub open spec fn row_fits(line: Seq<char>) -> bool {
    let f = csv_fields(line);
    f.len() >= 3 ==> match parse_dec(f[2], 0x1_0000_0000_0000_0000) {
        Some(m) => m * MIB <= u64::MAX,
        None => true,
    }
}

/// Every row's MiB figure fits in bytes.
pub open spec fn rows_fit(lines: Seq<Seq<char>>) -> bool
    decreases lines.len(),
{
    lines.len() == 0 || (row_fits(lines[0]) && rows_fit(lines.drop_first()))
}

/// The static record of one row: uuid, name, total memory.
pub open spec fn static_row(line: Seq<char>) -> Option<GpuView> {
    let f = csv_fields(line);
    if f.len() < 3 {
        None
    } else {
        Some(
            GpuView {
                name: f[1],
                vram_bytes: mib_bytes(parse_dec(f[2], 0x1_0000_0000_0000_0000)),
                vram_used_bytes: None,
                utilization_percent: None,
                uuid: f[0],
                vendor: GpuVendor::Nvidia,
                vendor_id: Some(0x10de),
            },
        )
    }
}

/// The static records of the rows, in order.
pub open spec fn static_rows(lines: Seq<Seq<char>>) -> Seq<GpuView>
    decreases lines.len(),
{
    if lines.len() == 0 {
        seq![]
    } else {
        match static_row(lines[0]) {
            Some(g) => seq![g] + static_rows(lines.drop_first()),
            None => static_rows(lines.drop_first()),
        }
    }
}

/// The trimmed texts.
pub open spec fn trimmed(fs: Seq<Seq<char>>) -> Seq<Seq<char>> {
    fs.map_values(|f: Seq<char>| trim(f))
}

/// The first field of `t` runs up to `j`, the first comma.
proof fn lemma_comma_step(t: Seq<char>, j: int)
    requires
        0 <= j <= t.len(),
        j < t.len() ==> t[j] == ',',
        forall|k: int| 0 <= k < j ==> t[k] != ',',
    ensures
        j < t.len() ==> comma_fields(t) == seq![t.take(j)] + comma_fields(t.skip(j + 1)),
        j == t.len() ==> comma_fields(t) == seq![t],
{
    reveal(comma_fields);
    if j < t.len() {
        let i = choose|i: int| 0 <= i < t.len() && t[i] == ',' && forall|k: int| 0 <= k < i ==> t[k] != ',';
        assert(exists|i: int| 0 <= i < t.len() && t[i] == ',' && forall|k: int| 0 <= k < i ==> t[k] != ',') by {
            assert(0 <= j < t.len() && t[j] == ',' && forall|k: int| 0 <= k < j ==> t[k] != ',');
        }
        if i < j {
            assert(t[i] != ',');
        } else if i > j {
            assert(t[j] != ',');
        }
    } else {
        assert(!(exists|i: int| 0 <= i < t.len() && t[i] == ','));
    }
}

/// The field of `line` starting at `start`, and where the next one starts.
fn next_field(line: &str, start: usize) -> (r: (String, Option<usize>))
    requires
        start <= line@.len(),
    ensures
        match r.1 {
            Some(next) => start < next <= line@.len() && comma_fields(line@.skip(start as int)) == seq![r.0@]
                + comma_fields(line@.skip(next as int)),
            None => comma_fields(line@.skip(start as int)) == seq![r.0@],
        },
{
    let n = line.unicode_len();
    let ghost rest = line@.skip(start as int);
    let mut j = start;
    while j < n
        invariant
            n == line@.len(),
            start <= j <= n,
            forall|k: int| start <= k < j ==> line@[k] != ',',
        ensures
            start <= j <= n,
            j < n ==> line@[j as int] == ',',
            forall|k: int| start <= k < j ==> line@[k] != ',',
        decreases n - j,
    {
        if line.get_char(j) == ',' {
            break;
        }
        j = j + 1;
    }
    let field = char_range(line, start, j);
    proof {
        assert forall|k: int| 0 <= k < j - start implies rest[k] != ',' by {
            assert(rest[k] == line@[start + k]);
        }
    }
    if j < n {
        proof {
            assert(rest[j - start] == ',');
            lemma_comma_step(rest, j - start);
            assert(rest.take(j - start) =~= field@);
            assert(rest.skip(j - start + 1) =~= line@.skip(j + 1));
        }
        (field, Some(j + 1))
    } else {
        proof {
            assert(j == n);
            lemma_comma_step(rest, j - start);
            assert(rest =~= field@);
        }
        (field, None)
    }
}

/// Split one CSV row into trimmed fields (none for a blank row).
pub fn split_csv(line: &str) -> (r: Vec<String>)
    ensures
        crate::codec::texts_view(r@) == csv_fields(line@),
{
    let t = trim_line(line);
    let mut out: Vec<String> = Vec::new();
    proof {
        assert(crate::codec::texts_view(out@) =~= Seq::<Seq<char>>::empty());
    }
    if t.unicode_len() == 0 {
        return out;
    }
    let n = line.unicode_len();
    let mut start: usize = 0;
    proof {
        assert(line@.skip(0) =~= line@);
    }
    loop
        invariant
            n == line@.len(),
            start <= n,
            trim(line@).len() > 0,
            trimmed(comma_fields(line@)) == crate::codec::texts_view(out@) + trimmed(comma_fields(line@.skip(start as int))),
        decreases n - start,
    {
        let (field, next) = next_field(line, start);
        let tf = trim_line(field.as_str());
        let ghost before = crate::codec::texts_view(out@);
        out.push(tf);
        proof {
            assert(crate::codec::texts_view(out@) =~= before + seq![trim(field@)]);
        }
        match next {
            Some(j) => {
                proof {
                    assert(trimmed(comma_fields(line@.skip(start as int))) =~= seq![trim(field@)] + trimmed(comma_fields(line@.skip(j as int))));
                }
                start = j;
            },
            None => {
                proof {
                    assert(trimmed(comma_fields(line@.skip(start as int))) =~= seq![trim(field@)]);
                    assert(trimmed(comma_fields(line@)) =~= crate::codec::texts_view(out@));
                }
                return out;
            },
        }
    }
}

fn mib_to_bytes(v: Option<u64>) -> (r: Option<u64>)
    requires
        match v {
            Some(m) => m * MIB <= u64::MAX,
            None => true,
        },
    ensures
        r == mib_bytes(match v {
            Some(m) => Some(m as nat),
            None => None,
        }),
{
    match v {
        Some(m) => Some(m * MIB),
        None => None,
    }
}

fn static_row_exec(line: &str) -> (r: Option<Gpu>)
    requires
        row_fits(line@),
    ensures
        match r {
            Some(g) => static_row(line@) == Some(gpu_view(g)),
            None => static_row(line@) is None,
        },
{
    let f = split_csv(line);
    if f.len() < 3 {
        return None;
    }
    proof {
        assert(crate::codec::texts_view(f@)[2] == f@[2]@);
    }
    let vram = mib_to_bytes(parse_u64_text(f[2].as_str()));
    let mut uuid = String::new();
    push_str(&mut uuid, f[0].as_str());
    let mut name = String::new();
    push_str(&mut name, f[1].as_str());
    proof {
        assert(crate::codec::texts_view(f@)[0] == f@[0]@);
        assert(crate::codec::texts_view(f@)[1] == f@[1]@);
    }
    Some(
        Gpu {
            name,
            vram_bytes: vram,
            vram_used_bytes: None,
            utilization_percent: None,
            uuid,
            vendor: GpuVendor::Nvidia,
            vendor_id: Some(0x10de),
        },
    )
}

/// Parse `uuid, name, memory.total(MiB)` CSV rows into static GPU records;
/// rows with fewer than three fields are skipped. Every total must fit in
/// bytes.
pub fn parse_static(csv: &str) -> (r: Vec<Gpu>)
    requires
        rows_fit(lines_of(csv@)),
    ensures
        gpu_views(r@) == static_rows(lines_of(csv@)),
{
    let len = csv.unicode_len();
    let mut out: Vec<Gpu> = Vec::new();
    let mut pos: usize = 0;
    proof {
        assert(csv@.skip(0) =~= csv@);
        assert(gpu_views(out@) =~= Seq::<GpuView>::empty());
    }
    while pos < len
        invariant
            len == csv@.len(),
            pos <= len,
            rows_fit(lines_of(csv@.skip(pos as int))),
            static_rows(lines_of(csv@)) == gpu_views(out@) + static_rows(lines_of(csv@.skip(pos as int))),
        decreases len - pos,
    {
        let (line, next) = line_at(csv, pos);
        let ghost ls = lines_of(csv@.skip(pos as int));
        let ghost rest = match next {
            Some(n) => lines_of(csv@.skip(n as int)),
            None => Seq::<Seq<char>>::empty(),
        };
        proof {
            assert(ls[0] == line@);
            assert(ls.drop_first() =~= rest);
        }
        let ghost before = gpu_views(out@);
        match static_row_exec(line.as_str()) {
            Some(g) => {
                out.push(g);
                proof {
                    assert(gpu_views(out@) =~= before + seq![gpu_view(g)]);
                }
            },
            None => {},
        }
        match next {
            Some(n) => {
                pos = n;
            },
            None => {
                proof {
                    assert(static_rows(rest) == Seq::<GpuView>::empty());
                    assert(gpu_views(out@) + Seq::<GpuView>::empty() =~= gpu_views(out@));
                }
                return out;
            },
        }
    }
    proof {
        reveal(lines_of);
        assert(csv@.skip(len as int) =~= Seq::<char>::empty());
        assert(lines_of(Seq::<char>::empty()) =~= Seq::<Seq<char>>::empty());
        assert(gpu_views(out@) + Seq::<GpuView>::empty() =~= gpu_views(out@));
    }
    out
}

/// Utilization and used memory of one dynamic row.
pub open spec fn dyn_value(f: Seq<Seq<char>>) -> (Option<u32>, Option<u64>) {
    (
        match parse_dec(f[1], 0x1_0000_0000) {
            Some(u) => Some(u as u32),
            None => None,
        },
        mib_bytes(parse_dec(f[2], 0x1_0000_0000_0000_0000)),
    )
}

/// The readings after one dynamic row: a row with at least three fields sets
/// the reading of its uuid.
pub open spec fn dyn_apply(m: Map<Seq<char>, (Option<u32>, Option<u64>)>, line: Seq<char>) -> Map<Seq<char>, (Option<u32>, Option<u64>)> {
    let f = csv_fields(line);
    if f.len() < 3 {
        m
    } else {
        m.insert(f[0], dyn_value(f))
    }
}

/// The readings after the rows, in order (a later row for the same uuid wins).
pub open spec fn dyn_fold(m: Map<Seq<char>, (Option<u32>, Option<u64>)>, lines: Seq<Seq<char>>) -> Map<Seq<char>, (Option<u32>, Option<u64>)>
    decreases lines.len(),
{
    if lines.len() == 0 {
        m
    } else {
        dyn_fold(dyn_apply(m, lines[0]), lines.drop_first())
    }
}

/// Parse `uuid, utilization.gpu(%), memory.used(MiB)` CSV rows keyed by uuid.
/// Every used-memory figure must fit in bytes.
pub fn parse_dynamic(csv: &str) -> (r: Keyed<(Option<u32>, Option<u64>)>)
    requires
        rows_fit(lines_of(csv@)),
    ensures
        r.wf(),
        r.view() == dyn_fold(Map::empty(), lines_of(csv@)),
{
    let len = csv.unicode_len();
    let mut m: Keyed<(Option<u32>, Option<u64>)> = Keyed::new();
    let mut pos: usize = 0;
    proof {
        assert(csv@.skip(0) =~= csv@);
    }
    while pos < len
        invariant
            len == csv@.len(),
            pos <= len,
            m.wf(),
            rows_fit(lines_of(csv@.skip(pos as int))),
            dyn_fold(Map::empty(), lines_of(csv@)) == dyn_fold(m.view(), lines_of(csv@.skip(pos as int))),
        decreases len - pos,
    {
        let (line, next) = line_at(csv, pos);
        let ghost ls = lines_of(csv@.skip(pos as int));
        let ghost rest = match next {
            Some(n) => lines_of(csv@.skip(n as int)),
            None => Seq::<Seq<char>>::empty(),
        };
        proof {
            assert(ls[0] == line@);
            assert(ls.drop_first() =~= rest);
        }
        let ghost m0 = m.view();
        let f = split_csv(line.as_str());
        if f.len() >= 3 {
            proof {
                assert(crate::codec::texts_view(f@)[0] == f@[0]@);
                assert(crate::codec::texts_view(f@)[1] == f@[1]@);
                assert(crate::codec::texts_view(f@)[2] == f@[2]@);
            }
            let util = parse_u32_text(f[1].as_str());
            let used = mib_to_bytes(parse_u64_text(f[2].as_str()));
            let mut k = String::new();
            push_str(&mut k, f[0].as_str());
            m.insert(k, (util, used));
        }
        proof {
            assert(m.view() == dyn_apply(m0, line@));
            assert(dyn_fold(m0, ls) == dyn_fold(m.view(), rest));
        }
        match next {
            Some(n) => {
                pos = n;
            },
            None => {
                return m;
            },
        }
    }
    proof {
        reveal(lines_of);
        assert(csv@.skip(len as int) =~= Seq::<char>::empty());
        assert(lines_of(Seq::<char>::empty()) =~= Seq::<Seq<char>>::empty());
    }
    m
}

/// A static record with the live reading of its uuid, when there is one.
pub open spec fn merged(g: GpuView, d: Map<Seq<char>, (Option<u32>, Option<u64>)>) -> GpuView {
    if d.dom().contains(g.uuid) {
        GpuView { utilization_percent: d[g.uuid].0, vram_used_bytes: d[g.uuid].1, ..g }
    } else {
        g
    }
}

/// Fill each static record with the live reading of its uuid.
pub fn merge(statik: Vec<Gpu>, dynamic: &Keyed<(Option<u32>, Option<u64>)>) -> (r: Vec<Gpu>)
    requires
        dynamic.wf(),
    ensures
        r@.len() == statik@.len(),
        forall|i: int| 0 <= i < r@.len() ==> gpu_view(#[trigger] r@[i]) == merged(gpu_view(statik@[i]), dynamic.view()),
{
    let mut out: Vec<Gpu> = Vec::new();
    let mut i: usize = 0;
    while i < statik.len()
        invariant
            i <= statik@.len(),
            dynamic.wf(),
            out@.len() == i,
            forall|j: int| 0 <= j < i ==> gpu_view(#[trigger] out@[j]) == merged(gpu_view(statik@[j]), dynamic.view()),
        decreases statik@.len() - i,
    {
        let g = &statik[i];
        let (util, used) = match dynamic.get(g.uuid.as_str()) {
            Some(d) => (d.0, d.1),
            None => (g.utilization_percent, g.vram_used_bytes),
        };
        let mut name = String::new();
        push_str(&mut name, g.name.as_str());
        let mut uuid = String::new();
        push_str(&mut uuid, g.uuid.as_str());
        out.push(
            Gpu {
                name,
                vram_bytes: g.vram_bytes,
                vram_used_bytes: used,
                utilization_percent: util,
                uuid,
                vendor: g.vendor,
                vendor_id: g.vendor_id,
            },
        );
        i = i + 1;
    }
    out
}

fn row_fits_exec(line: &str) -> (r: bool)
    ensures
        r == row_fits(line@),
{
    let f = split_csv(line);
    if f.len() < 3 {
        return true;
    }
    proof {
        assert(crate::codec::texts_view(f@)[2] == f@[2]@);
    }
    match parse_u64_text(f[2].as_str()) {
        Some(m) => m <= 17592186044415,
        None => true,
    }
}

/// Whether every row's MiB figure fits in bytes, as the parsers require.
pub fn csv_fits(csv: &str) -> (r: bool)
    ensures
        r == rows_fit(lines_of(csv@)),
{
    let len = csv.unicode_len();
    let mut pos: usize = 0;
    proof {
        assert(csv@.skip(0) =~= csv@);
    }
    while pos < len
        invariant
            len == csv@.len(),
            pos <= len,
            rows_fit(lines_of(csv@)) == rows_fit(lines_of(csv@.skip(pos as int))),
        decreases len - pos,
    {
        let (line, next) = line_at(csv, pos);
        let ghost ls = lines_of(csv@.skip(pos as int));
        let ghost rest = match next {
            Some(n) => lines_of(csv@.skip(n as int)),
            None => Seq::<Seq<char>>::empty(),
        };
        proof {
            assert(ls[0] == line@);
            assert(ls.drop_first() =~= rest);
        }
        proof {
            assert(rows_fit(ls) == (row_fits(ls[0]) && rows_fit(ls.drop_first())));
        }
        if !row_fits_exec(line.as_str()) {
            return false;
        }
        match next {
            Some(n) => {
                pos = n;
            },
            None => {
                proof {
                    assert(rows_fit(rest));
                }
                return true;
            },
        }
    }
    proof {
        reveal(lines_of);
        assert(csv@.skip(pos as int) =~= Seq::<char>::empty());
        assert(lines_of(Seq::<char>::empty()) =~= Seq::<Seq<char>>::empty());
    }
    true
}

/// The live readings of an optional dynamic report (none without one).
pub open spec fn dyn_readings(dynamic: Option<Seq<char>>) -> Map<Seq<char>, (Option<u32>, Option<u64>)> {
    match dynamic {
        Some(d) => dyn_fold(Map::empty(), lines_of(d)),
        None => Map::empty(),
    }
}

/// The NVIDIA GPUs from `nvidia-smi`'s static report and, when it ran, its
/// dynamic report: nothing without a static report; else each static record
/// with the live reading of its uuid. Every MiB figure must fit in bytes.
pub fn detect(statik: Option<&str>, dynamic: Option<&str>) -> (r: Vec<Gpu>)
    requires
        statik matches Some(s) ==> rows_fit(lines_of(s@)),
        dynamic matches Some(d) ==> rows_fit(lines_of(d@)),
    ensures
        match statik {
            None => r@.len() == 0,
            Some(s) => {
                &&& r@.len() == static_rows(lines_of(s@)).len()
                &&& forall|i: int|
                    0 <= i < r@.len() ==> gpu_view(#[trigger] r@[i]) == merged(
                        static_rows(lines_of(s@))[i],
                        dyn_readings(
                            match dynamic {
                                Some(d) => Some(d@),
                                None => None,
                            },
                        ),
                    )
            },
        },
{
    let st = match statik {
        Some(s) => parse_static(s),
        None => return Vec::new(),
    };
    let dy = match dynamic {
        Some(d) => parse_dynamic(d),
        None => Keyed::new(),
    };
    let r = merge(st, &dy);
    proof {
        assert forall|i: int| 0 <= i < r@.len() implies gpu_view(#[trigger] r@[i]) == merged(
            static_rows(lines_of(statik.unwrap()@))[i],
            dyn_readings(
                match dynamic {
                    Some(d) => Some(d@),
                    None => None,
                },
            ),
        ) by {
            assert(gpu_views(st@)[i] == gpu_view(st@[i]));
        }
    }
    r
}

} // verus!
