//! The node's GPU inventory from its vendor tools and the operating system,
//! and the node telemetry snapshot built from it.

use vstd::prelude::*;
use crate::nodeinfo::gpu_os::{parse_macos_displays, parse_win32_video, spec_macos_displays, spec_win32_video};
use crate::trust::identity::{trim, trim_line};
use crate::proto::telemetry::{
    gpu_view, gpu_views, has_live_telemetry, telemetry_valid, Cpu, Gpu, GpuVendor, GpuView, MemoryInfo, NodeInfo,
};

verus! {

/// Whether some GPU of `gpus` is from `vendor`.
pub open spec fn covers(gpus: Seq<GpuView>, vendor: GpuVendor) -> bool {
    exists|i: int| 0 <= i < gpus.len() && (#[trigger] gpus[i]).vendor == vendor
}

/// The OS-reported GPUs whose vendor no tool report in `tools` covers, in
/// order.
pub open spec fn os_fill(os: Seq<GpuView>, tools: Seq<GpuView>) -> Seq<GpuView>
    decreases os.len(),
{
    if os.len() == 0 {
        seq![]
    } else if covers(tools, os.last().vendor) {
        os_fill(os.drop_last(), tools)
    } else {
        os_fill(os.drop_last(), tools).push(os.last())
    }
}

fn covers_exec(gpus: &Vec<Gpu>, n: usize, vendor: GpuVendor) -> (r: bool)
    requires
        n <= gpus@.len(),
    ensures
        r == covers(gpu_views(gpus@).subrange(0, n as int), vendor),
{
    let ghost gv = gpu_views(gpus@).subrange(0, n as int);
    let mut i: usize = 0;
    while i < n
        invariant
            i <= n,
            n <= gpus@.len(),
            gv == gpu_views(gpus@).subrange(0, n as int),
            forall|j: int| 0 <= j < i ==> (#[trigger] gv[j]).vendor != vendor,
        decreases gpus@.len() - i,
    {
        proof {
            assert(gv[i as int] == gpu_view(gpus@[i as int]));
        }
        if gpus[i].vendor == vendor {
            return true;
        }
        i = i + 1;
    }
    false
}

/// A copy of a GPU record.
fn copy_gpu(g: &Gpu) -> (r: Gpu)
    ensures
        gpu_view(r) == gpu_view(*g),
{
    Gpu {
        name: g.name.clone(),
        vram_bytes: g.vram_bytes,
        vram_used_bytes: g.vram_used_bytes,
        utilization_percent: g.utilization_percent,
        uuid: g.uuid.clone(),
        vendor: g.vendor,
        vendor_id: g.vendor_id,
    }
}

/// All GPUs of the node: those the NVIDIA and AMD tools report, then those
/// the operating system reports from a vendor that neither tool covered
/// (the tools' VRAM and utilization figures are the more accurate).
pub fn detect_gpus(nvidia: Vec<Gpu>, amd: Vec<Gpu>, os: Vec<Gpu>) -> (r: Vec<Gpu>)
    ensures
        gpu_views(r@) == gpu_views(nvidia@) + gpu_views(amd@) + os_fill(
            gpu_views(os@),
            gpu_views(nvidia@) + gpu_views(amd@),
        ),
{
    let mut gpus = nvidia;
    let mut amd = amd;
    let ghost tools = gpu_views(gpus@) + gpu_views(amd@);
    gpus.append(&mut amd);
    proof {
        assert(gpu_views(gpus@) =~= tools);
    }
    let ghost ov = gpu_views(os@);
    let mut i: usize = 0;
    proof {
        assert(ov.subrange(0, 0) =~= Seq::<GpuView>::empty());
        assert(gpu_views(gpus@) =~= tools + os_fill(ov.subrange(0, 0), tools));
    }
    let n = gpus.len();
    while i < os.len()
        invariant
            i <= os@.len(),
            ov == gpu_views(os@),
            n == tools.len(),
            n <= gpus@.len(),
            gpu_views(gpus@).subrange(0, n as int) == tools,
            gpu_views(gpus@) == tools + os_fill(ov.subrange(0, i as int), tools),
        decreases os@.len() - i,
    {
        let ghost before = gpu_views(gpus@);
        proof {
            assert(ov.subrange(0, i + 1).drop_last() =~= ov.subrange(0, i as int));
            assert(ov.subrange(0, i + 1).last() == gpu_view(os@[i as int]));
        }
        if !covers_exec(&gpus, n, os[i].vendor) {
            let g = copy_gpu(&os[i]);
            gpus.push(g);
            proof {
                assert(gpu_views(gpus@) =~= before.push(gpu_view(g)));
                assert(gpu_views(gpus@).subrange(0, n as int) =~= before.subrange(0, n as int));
            }
        }
        i = i + 1;
    }
    proof {
        assert(ov.subrange(0, os@.len() as int) =~= ov);
    }
    gpus
}

/// What the operating system reported of its GPUs: the output of the
/// platform's inventory tool, when it ran and succeeded.
pub enum OsReport {
    /// `Win32_VideoController` as CIM JSON.
    Windows(String),
    /// `system_profiler SPDisplaysDataType -json`.
    MacOs(String),
    /// No report (other platforms, or the tool failed).
    Unavailable,
}

/// The GPUs the operating system reports (none on other platforms, where the
/// vendor tools cover AMD through sysfs).
pub fn os_gpus(report: &OsReport) -> (r: Vec<Gpu>)
    ensures
        gpu_views(r@) == match report {
            OsReport::Windows(j) => spec_win32_video(j@),
            OsReport::MacOs(j) => spec_macos_displays(j@),
            OsReport::Unavailable => Seq::<GpuView>::empty(),
        },
{
    match report {
        OsReport::Windows(j) => parse_win32_video(j.as_str()),
        OsReport::MacOs(j) => parse_macos_displays(j.as_str()),
        OsReport::Unavailable => {
            let r: Vec<Gpu> = Vec::new();
            proof {
                assert(gpu_views(r@) =~= Seq::<GpuView>::empty());
            }
            r
        },
    }
}

/// A node telemetry snapshot: the GPUs with the host's CPU, memory and id;
/// telemetry is valid when some GPU reports used memory or utilization.
pub fn collect(
    node_uuid: Option<String>,
    cluster_uuid: Option<String>,
    gpus: Vec<Gpu>,
    cpu: Option<Cpu>,
    memory: Option<MemoryInfo>,
    host_uuid: Option<String>,
) -> (r: NodeInfo)
    ensures
        r.gpus@ == gpus@,
        r.telemetry_valid == has_live_telemetry(gpus@),
        r.ms_since == 0,
        r.cpu == cpu,
        r.memory == memory,
        r.host_uuid == host_uuid,
        r.node_uuid == node_uuid,
        r.cluster_uuid == cluster_uuid,
{
    let valid = telemetry_valid(&gpus);
    NodeInfo { gpus, cpu, memory, telemetry_valid: valid, ms_since: 0, host_uuid, node_uuid, cluster_uuid }
}

/// The CPU summary from what the host reports: its brand, else its vendor
/// id, else `unknown` (each trimmed), with its physical cores and logical
/// threads; none when no logical CPU is reported.
pub fn cpu_summary(brand: &str, vendor_id: &str, cores: Option<usize>, threads: usize) -> (r: Option<Cpu>)
    ensures
        threads == 0 ==> r is None,
        threads > 0 ==> (r matches Some(c) && c.name@ == cpu_name(brand@, vendor_id@) && c.cores == (match cores {
            Some(k) => Some(k as u32),
            None => None,
        }) && c.total_threads == Some(threads as u32) && c.utilization_percent is None),
{
    if threads == 0 {
        return None;
    }
    let b = trim_line(brand);
    let name = if b.unicode_len() > 0 {
        b
    } else {
        let v = trim_line(vendor_id);
        if v.unicode_len() > 0 {
            v
        } else {
            String::from_str("unknown")
        }
    };
    proof {
        reveal_strlit("unknown");
    }
    let c: Option<u32> = match cores {
        Some(k) => Some(k as u32),
        None => None,
    };
    Some(Cpu { name, cores: c, total_threads: Some(threads as u32), utilization_percent: None })
}

/// The CPU name: the trimmed brand, else the trimmed vendor id, else `unknown`.
pub open spec fn cpu_name(brand: Seq<char>, vendor_id: Seq<char>) -> Seq<char> {
    if trim(brand).len() > 0 {
        trim(brand)
    } else if trim(vendor_id).len() > 0 {
        trim(vendor_id)
    } else {
        "unknown"@
    }
}

/// The memory summary: none when no memory is reported.
pub fn memory_summary(total: u64, used: u64) -> (r: Option<MemoryInfo>)
    ensures
        total == 0 ==> r is None,
        total > 0 ==> r == Some(MemoryInfo { total_bytes: total, used_bytes: Some(used) }),
{
    if total == 0 {
        None
    } else {
        Some(MemoryInfo { total_bytes: total, used_bytes: Some(used) })
    }
}

} // verus!
