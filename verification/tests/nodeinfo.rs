use openpair::nodeinfo::amd::parse_rocm_smi_json;
use openpair::nodeinfo::gpu_os::{parse_macos_displays, parse_win32_video, vendor_from_pnp, vendor_id_from_pnp};
use openpair::nodeinfo::inventory::{collect, cpu_summary, detect_gpus, memory_summary, os_gpus, OsReport};
use openpair::nodeinfo::nvidia::{csv_fits, detect, merge, parse_dynamic, parse_static, split_csv, MIB};
use openpair::nodeinfo::amd;
use openpair::proto::telemetry::{Gpu, GpuVendor};

fn gpu(name: &str, vendor: GpuVendor) -> Gpu {
    Gpu {
        name: name.into(),
        vram_bytes: None,
        vram_used_bytes: None,
        utilization_percent: None,
        uuid: name.into(),
        vendor,
        vendor_id: None,
    }
}

#[test]
fn parse_static_mib_to_bytes() {
    let out = "GPU-1111, NVIDIA GeForce RTX 4090, 24564\nGPU-2222, NVIDIA RTX A6000, 49140";
    let g = parse_static(out);
    assert_eq!(g.len(), 2);
    assert_eq!(g[0].uuid, "GPU-1111");
    assert_eq!(g[0].name, "NVIDIA GeForce RTX 4090");
    assert_eq!(g[0].vram_bytes, Some(24564 * MIB));
    assert_eq!(g[0].vendor, GpuVendor::Nvidia);
}

#[test]
fn parse_dynamic_and_merge() {
    let statik = parse_static("GPU-1111, RTX 4090, 24564");
    let dyn_ = parse_dynamic("GPU-1111, 55, 8000");
    let merged = merge(statik, &dyn_);
    assert_eq!(merged[0].utilization_percent, Some(55));
    assert_eq!(merged[0].vram_used_bytes, Some(8000 * MIB));
}

#[test]
fn short_rows_and_bad_numbers() {
    let g = parse_static("GPU-1, only-two\n\nGPU-2, N, [N/A]\r\n");
    assert_eq!(g.len(), 1);
    assert_eq!(g[0].uuid, "GPU-2");
    assert_eq!(g[0].vram_bytes, None);
    assert_eq!(split_csv("  a , b,c  "), vec!["a", "b", "c"]);
    assert!(split_csv("   ").is_empty());
}

#[test]
fn nvidia_detect_merges_reports() {
    assert!(detect(None, Some("GPU-1, 5, 1")).is_empty());
    let g = detect(Some("GPU-1, A, 10\nGPU-2, B, 20"), Some("GPU-2, 7, 3"));
    assert_eq!(g.len(), 2);
    assert_eq!(g[0].utilization_percent, None);
    assert_eq!(g[1].utilization_percent, Some(7));
    assert_eq!(g[1].vram_used_bytes, Some(3 * MIB));
    assert!(csv_fits("GPU-1, A, 10"));
    assert!(!csv_fits("GPU-1, A, 99999999999999"));
}

#[test]
fn detect_gpus_never_panics() {
    let _ = detect_gpus(Vec::new(), Vec::new(), Vec::new());
}

#[test]
fn os_gpus_fill_uncovered_vendors_only() {
    let g = detect_gpus(
        vec![gpu("nv", GpuVendor::Nvidia)],
        Vec::new(),
        vec![gpu("nv-os", GpuVendor::Nvidia), gpu("amd-igpu", GpuVendor::Amd), gpu("intel", GpuVendor::Intel)],
    );
    let names: Vec<&str> = g.iter().map(|g| g.name.as_str()).collect();
    assert_eq!(names, vec!["nv", "amd-igpu", "intel"]);
}

#[test]
fn collect_builds_nodeinfo() {
    let ni = collect(Some("node-1".into()), None, Vec::new(), None, None, None);
    assert_eq!(ni.node_uuid.as_deref(), Some("node-1"));
    assert!(!ni.telemetry_valid);
    assert_eq!(ni.ms_since, 0);
}

#[test]
fn cpu_and_memory_summaries() {
    let c = cpu_summary("  Ryzen 9  ", "AuthenticAMD", Some(8), 16).unwrap();
    assert_eq!(c.name, "Ryzen 9");
    assert_eq!(c.cores, Some(8));
    assert_eq!(c.total_threads, Some(16));
    assert_eq!(cpu_summary("", " GenuineIntel ", None, 4).unwrap().name, "GenuineIntel");
    assert_eq!(cpu_summary("", "", None, 4).unwrap().name, "unknown");
    assert!(cpu_summary("x", "y", None, 0).is_none());
    assert!(memory_summary(0, 0).is_none());
    assert_eq!(memory_summary(10, 4).unwrap().used_bytes, Some(4));
}

#[test]
fn rocm_smi_bytes() {
    let js = r#"{
      "card0": {
        "Card Series": "Radeon RX 7900 XTX",
        "Unique ID": "0xabc123",
        "VRAM Total Memory (B)": "25753026560",
        "VRAM Total Used Memory (B)": "1288490188",
        "GPU use (%)": "42"
      }
    }"#;
    let g = parse_rocm_smi_json(js);
    assert_eq!(g.len(), 1);
    assert_eq!(g[0].name, "Radeon RX 7900 XTX");
    assert_eq!(g[0].uuid, "0xabc123");
    assert_eq!(g[0].vram_bytes, Some(25_753_026_560));
    assert_eq!(g[0].vram_used_bytes, Some(1_288_490_188));
    assert_eq!(g[0].utilization_percent, Some(42));
    assert_eq!(g[0].vendor, GpuVendor::Amd);
}

#[test]
fn rocm_defaults_nesting_and_order() {
    let js = r#"{"system":{"x":1},"card1":{"inner":{"Device Name":"Deep"}},"card0":{"VRAM Total Memory (B)":1024}}"#;
    let g = parse_rocm_smi_json(js);
    assert_eq!(g.len(), 2);
    assert_eq!(g[0].name, "AMD GPU");
    assert_eq!(g[0].uuid, "card0");
    assert_eq!(g[0].vram_bytes, Some(1024));
    assert_eq!(g[1].name, "Deep");
    assert_eq!(g[1].vendor_id, Some(0x1002));
    assert!(parse_rocm_smi_json("[1,2]").is_empty());
    assert!(parse_rocm_smi_json("garbage").is_empty());
}

#[test]
fn amd_detect_prefers_amd_smi() {
    let a = amd::detect(vec![gpu("mi300", GpuVendor::Amd)], Some(r#"{"card0":{}}"#));
    assert_eq!(a.len(), 1);
    assert_eq!(a[0].name, "mi300");
    let b = amd::detect(Vec::new(), Some(r#"{"card0":{}}"#));
    assert_eq!(b.len(), 1);
    assert_eq!(b[0].name, "AMD GPU");
    assert!(amd::detect(Vec::new(), None).is_empty());
}

#[test]
fn parse_win32_array_and_vendor() {
    let json = r#"[
      {"Name":"NVIDIA GeForce RTX 5070","AdapterRAM":4293918720,"PNPDeviceID":"PCI\\VEN_10DE&DEV_2F04&SUBSYS_00000000"},
      {"Name":"AMD Radeon(TM) Graphics","AdapterRAM":536870912,"PNPDeviceID":"PCI\\VEN_1002&DEV_164E"}
    ]"#;
    let g = parse_win32_video(json);
    assert_eq!(g.len(), 2);
    assert_eq!(g[0].vendor, GpuVendor::Nvidia);
    assert_eq!(g[0].vendor_id, Some(0x10de));
    assert_eq!(g[1].vendor, GpuVendor::Amd);
    assert_eq!(g[1].vendor_id, Some(0x1002));
    assert_eq!(g[1].vram_bytes, Some(536870912));
}

#[test]
fn parse_win32_single_object() {
    let json = r#"{"Name":"AMD Radeon(TM) Graphics","AdapterRAM":536870912,"PNPDeviceID":"PCI\\VEN_1002&DEV_164E"}"#;
    let g = parse_win32_video(json);
    assert_eq!(g.len(), 1);
    assert_eq!(g[0].vendor, GpuVendor::Amd);
}

#[test]
fn win32_edge_cases() {
    let g = parse_win32_video(r#" [{"Name":"  Basic Display  ","AdapterRAM":0},{"AdapterRAM":5}] "#);
    assert_eq!(g.len(), 1);
    assert_eq!(g[0].name, "Basic Display");
    assert_eq!(g[0].vram_bytes, None);
    assert_eq!(g[0].uuid, "");
    assert_eq!(g[0].vendor, GpuVendor::Other);
    assert!(parse_win32_video("42").is_empty());
    assert_eq!(vendor_id_from_pnp("pci\\ven_8086&dev_1"), Some(0x8086));
    assert_eq!(vendor_from_pnp("pci\\ven_8086&dev_1"), GpuVendor::Intel);
    assert_eq!(vendor_id_from_pnp("PCI\\VEN_ZZ"), None);
    assert_eq!(vendor_id_from_pnp("no vendor"), None);
}

#[test]
fn macos_parse() {
    let json = r#"{"SPDisplaysDataType":[{"_name":"AMD Radeon Pro 5500M","sppci_model":"AMD Radeon Pro 5500M"}]}"#;
    let g = parse_macos_displays(json);
    assert_eq!(g.len(), 1);
    assert_eq!(g[0].vendor, GpuVendor::Amd);
}

#[test]
fn macos_vendors_and_fallback_name() {
    let json = r#"{"SPDisplaysDataType":[{"_name":"Apple M2"},{"sppci_model":"NVIDIA GeForce GT 750M"},{"_name":"Mystery"},{"x":1}]}"#;
    let g = parse_macos_displays(json);
    assert_eq!(g.len(), 3);
    assert_eq!(g[0].vendor, GpuVendor::Intel);
    assert_eq!(g[1].vendor, GpuVendor::Nvidia);
    assert_eq!(g[2].vendor, GpuVendor::Other);
    assert_eq!(g[2].uuid, "Mystery");
}

#[test]
fn os_report_dispatch() {
    assert!(os_gpus(&OsReport::Unavailable).is_empty());
    let w = os_gpus(&OsReport::Windows(r#"{"Name":"X"}"#.into()));
    assert_eq!(w.len(), 1);
    let m = os_gpus(&OsReport::MacOs(r#"{"SPDisplaysDataType":[{"_name":"Intel Iris"}]}"#.into()));
    assert_eq!(m[0].vendor, GpuVendor::Intel);
}

const MB: u64 = 1_000_000;

/// Megabytes as amd-smi reports them (a JSON number) in bytes.
fn mb_text_to_bytes(t: &Option<String>) -> Option<u64> {
    t.as_deref().map(|s| (s.parse::<f64>().unwrap() * MB as f64) as u64)
}

#[test]
fn amd_smi_nested_value_unit() {
    let stat = r#"[{"gpu":0,"asic":{"market_name":"Instinct MI300X"},
                    "vram":{"size":{"value":196608,"unit":"MB"}},
                    "board":{"serial":"SN-1"}}]"#;
    let metric = r#"[{"gpu":0,"usage":{"gfx_activity":{"value":88,"unit":"%"}},
                      "mem_usage":{"used_vram":{"value":40960,"unit":"MB"}}}]"#;
    let g = amd::amd_smi_readings(stat, Some(metric));
    assert_eq!(g.len(), 1);
    assert_eq!(g[0].name, "Instinct MI300X");
    assert_eq!(g[0].uuid, "SN-1");
    assert_eq!(mb_text_to_bytes(&g[0].total), Some(196608 * MB));
    assert_eq!(mb_text_to_bytes(&g[0].used), Some(40960 * MB));
    assert_eq!(g[0].activity.as_deref().map(|s| s.parse::<f64>().unwrap() as u32), Some(88));
}

#[test]
fn amd_smi_defaults_and_metric_matching() {
    let stat = r#"[{"gpu":3,"vram":{"total":512}},{"x":1},"not an object"]"#;
    let metric = r#"[{"gpu":1,"used":1},{"gpu":3,"gfx":{"value":7.5},"used_vram":2}]"#;
    let g = amd::amd_smi_readings(stat, Some(metric));
    assert_eq!(g.len(), 3);
    assert_eq!(g[0].idx, Some(3));
    assert_eq!(g[0].name, "AMD GPU");
    assert_eq!(g[0].uuid, "amd-gpu-3");
    assert_eq!(g[0].total.as_deref(), Some("512"));
    assert_eq!(g[0].used.as_deref(), Some("2"));
    assert_eq!(g[0].activity.as_deref(), Some("7.5"));
    assert_eq!(g[1].idx, None);
    assert_eq!(g[1].uuid, "amd-gpu-0");
    assert_eq!(g[1].used, None);
    assert_eq!(g[2].name, "AMD GPU");
    assert!(amd::amd_smi_readings("{\"gpu\":0}", None).is_empty());
    assert!(amd::amd_smi_readings("not json", Some(metric)).is_empty());
}
