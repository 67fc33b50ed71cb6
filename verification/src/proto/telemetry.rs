//! Node hardware inventory and GPU telemetry, as carried on `/v1/node-info`.

use vstd::prelude::*;

verus! {

/// A GPU vendor.
#[derive(Debug, Clone, Copy, PartialEq, Eq, Structural)]
pub enum GpuVendor {
    Nvidia,
    Amd,
    Intel,
    Other,
}

/// The vendor of a PCI vendor id: 0x10de NVIDIA, 0x1002 AMD/ATI, 0x8086 Intel.
pub open spec fn vendor_of_pci(id: u16) -> GpuVendor {
    if id == 0x10de {
        GpuVendor::Nvidia
    } else if id == 0x1002 {
        GpuVendor::Amd
    } else if id == 0x8086 {
        GpuVendor::Intel
    } else {
        GpuVendor::Other
    }
}

impl GpuVendor {
    /// PCI vendor id -> vendor.
    pub fn from_pci_id(id: u16) -> (r: GpuVendor)
        ensures
            r == vendor_of_pci(id),
    {
        if id == 0x10de {
            GpuVendor::Nvidia
        } else if id == 0x1002 {
            GpuVendor::Amd
        } else if id == 0x8086 {
            GpuVendor::Intel
        } else {
            GpuVendor::Other
        }
    }
}

impl Default for GpuVendor {
    fn default() -> (r: Self)
        ensures
            r == GpuVendor::Other,
    {
        GpuVendor::Other
    }
}

/// A single GPU. Only `name` and `vram_bytes` are always reported;
/// used memory and utilization appear once telemetry is sampled. `uuid`,
/// `vendor` and `vendor_id` are for internal routing only.
#[derive(Debug, Clone)]
pub struct Gpu {
    pub name: String,
    pub vram_bytes: Option<u64>,
    pub vram_used_bytes: Option<u64>,
    pub utilization_percent: Option<u32>,
    pub uuid: String,
    pub vendor: GpuVendor,
    pub vendor_id: Option<u16>,
}

/// The content of a GPU record.
pub struct GpuView {
    pub name: Seq<char>,
    pub vram_bytes: Option<u64>,
    pub vram_used_bytes: Option<u64>,
    pub utilization_percent: Option<u32>,
    pub uuid: Seq<char>,
    pub vendor: GpuVendor,
    pub vendor_id: Option<u16>,
}

/// The content of a GPU record value.
pub open spec fn gpu_view(g: Gpu) -> GpuView {
    GpuView {
        name: g.name@,
        vram_bytes: g.vram_bytes,
        vram_used_bytes: g.vram_used_bytes,
        utilization_percent: g.utilization_percent,
        uuid: g.uuid@,
        vendor: g.vendor,
        vendor_id: g.vendor_id,
    }
}

/// The contents of a list of GPU records.
pub open spec fn gpu_views(v: Seq<Gpu>) -> Seq<GpuView> {
    v.map_values(|g: Gpu| gpu_view(g))
}

/// Host CPU summary.
#[derive(Debug, Clone)]
pub struct Cpu {
    pub name: String,
    pub cores: Option<u32>,
    pub total_threads: Option<u32>,
    pub utilization_percent: Option<u32>,
}

/// Host memory summary.
#[derive(Debug, Clone, Copy)]
pub struct MemoryInfo {
    pub total_bytes: u64,
    pub used_bytes: Option<u64>,
}

/// The `/v1/node-info` response.
#[derive(Debug, Clone)]
pub struct NodeInfo {
    pub gpus: Vec<Gpu>,
    pub cpu: Option<Cpu>,
    pub memory: Option<MemoryInfo>,
    pub telemetry_valid: bool,
    pub ms_since: u64,
    pub host_uuid: Option<String>,
    pub node_uuid: Option<String>,
    pub cluster_uuid: Option<String>,
}

/// The free VRAM of one GPU: total minus used (zero when used exceeds
/// total), counted only when both are known.
pub open spec fn gpu_free(g: Gpu) -> nat {
    match (g.vram_bytes, g.vram_used_bytes) {
        (Some(total), Some(used)) => if total >= used { (total - used) as nat } else { 0 },
        _ => 0,
    }
}

/// The free VRAM summed over `gpus`.
pub open spec fn free_sum(gpus: Seq<Gpu>) -> nat
    decreases gpus.len(),
{
    if gpus.len() == 0 {
        0
    } else {
        free_sum(gpus.drop_last()) + gpu_free(gpus.last())
    }
}

/// Whether some GPU reports live telemetry (used memory or utilization).
pub open spec fn has_live_telemetry(gpus: Seq<Gpu>) -> bool {
    exists|i: int| 0 <= i < gpus.len() && ((#[trigger] gpus[i]).vram_used_bytes is Some || gpus[i].utilization_percent is Some)
}

/// Whether some GPU reports used memory or utilization.
pub fn telemetry_valid(gpus: &Vec<Gpu>) -> (r: bool)
    ensures
        r == has_live_telemetry(gpus@),
{
    let mut i: usize = 0;
    while i < gpus.len()
        invariant
            i <= gpus@.len(),
            forall|j: int| 0 <= j < i ==> !((#[trigger] gpus@[j]).vram_used_bytes is Some || gpus@[j].utilization_percent is Some),
        decreases gpus@.len() - i,
    {
        if gpus[i].vram_used_bytes.is_some() || gpus[i].utilization_percent.is_some() {
            return true;
        }
        i = i + 1;
    }
    false
}

proof fn lemma_free_sum_prefix(gpus: Seq<Gpu>, i: int)
    requires
        0 <= i <= gpus.len(),
    ensures
        free_sum(gpus.subrange(0, i)) <= free_sum(gpus),
    decreases gpus.len() - i,
{
    if i < gpus.len() {
        lemma_free_sum_prefix(gpus, i + 1);
        let p = gpus.subrange(0, i + 1);
        assert(p.drop_last() =~= gpus.subrange(0, i));
    } else {
        assert(gpus.subrange(0, i) =~= gpus);
    }
}

/// Free VRAM adds up: the free VRAM of two GPU lists put together is the sum
/// of theirs.
pub proof fn lemma_free_additive(a: Seq<Gpu>, b: Seq<Gpu>)
    ensures
        free_sum(a + b) == free_sum(a) + free_sum(b),
    decreases b.len(),
{
    if b.len() == 0 {
        assert(a + b =~= a);
    } else {
        lemma_free_additive(a, b.drop_last());
        assert((a + b).drop_last() =~= a + b.drop_last());
        assert((a + b).last() == b.last());
    }
}

/// The free VRAM of a single GPU is its total minus its used memory, zero
/// when used exceeds total or either is unknown; no GPUs have none.
pub proof fn lemma_free_single(g: Gpu)
    ensures
        free_sum(seq![g]) == match (g.vram_bytes, g.vram_used_bytes) {
            (Some(total), Some(used)) => if total >= used {
                total - used
            } else {
                0
            },
            _ => 0,
        },
        free_sum(Seq::<Gpu>::empty()) == 0,
{
    assert(seq![g].drop_last() =~= Seq::<Gpu>::empty());
    assert(free_sum(Seq::<Gpu>::empty()) == 0);
    assert(seq![g].last() == g);
    assert(free_sum(seq![g]) == gpu_free(g));
}

impl NodeInfo {
    /// Bytes of VRAM currently free across all GPUs that report both total
    /// and used memory. The total must fit in 64 bits.
    pub fn free_vram_bytes(&self) -> (r: u64)
        requires
            free_sum(self.gpus@) <= u64::MAX,
        ensures
            r == free_sum(self.gpus@),
    {
        let mut sum: u64 = 0;
        let mut i: usize = 0;
        proof {
            assert(self.gpus@.subrange(0, 0) =~= Seq::<Gpu>::empty());
        }
        while i < self.gpus.len()
            invariant
                i <= self.gpus@.len(),
                free_sum(self.gpus@) <= u64::MAX,
                sum == free_sum(self.gpus@.subrange(0, i as int)),
            decreases self.gpus@.len() - i,
        {
            let g = &self.gpus[i];
            let f: u64 = match (g.vram_bytes, g.vram_used_bytes) {
                (Some(total), Some(used)) => total.saturating_sub(used),
                _ => 0,
            };
            proof {
                let p = self.gpus@.subrange(0, i + 1);
                assert(p.drop_last() =~= self.gpus@.subrange(0, i as int));
                assert(p.last() == *g);
                lemma_free_sum_prefix(self.gpus@, i + 1);
            }
            sum = sum + f;
            i = i + 1;
        }
        proof {
            assert(self.gpus@.subrange(0, self.gpus@.len() as int) =~= self.gpus@);
        }
        sum
    }
}

} // verus!
