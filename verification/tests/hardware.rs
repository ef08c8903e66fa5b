use llama_test_matrix::hardware::{
    cpu_specs_from, cuda_specs_from, gpu_specs_from, listed_gpu_name, memory_specs_from,
    system_specs_from, topology_specs_from, HardwareSpec,
};
use llama_test_matrix::text::strip_ansi_escape_sequences;

fn pairs(specs: &[HardwareSpec]) -> Vec<(String, String)> {
    specs.iter().map(|s| (s.item.clone(), s.value.clone())).collect()
}

fn p(a: &str, b: &str) -> (String, String) {
    (a.to_string(), b.to_string())
}

#[test]
fn test_parse_gpu_list() {
    let line = "GPU 0: NVIDIA GeForce RTX 4090 (UUID: GPU-xxx)";
    let name = listed_gpu_name(line).unwrap();
    assert_eq!(name, "NVIDIA GeForce RTX 4090");
}

#[test]
fn test_strip_ansi_escape_sequences() {
    assert_eq!(strip_ansi_escape_sequences("\x1b[4mGPU0\x1b[0m"), "GPU0");
    assert_eq!(strip_ansi_escape_sequences("no ansi"), "no ansi");
}

#[test]
fn gpu_items_from_listing_and_query() {
    let listing = "GPU 0: NVIDIA A100 (UUID: GPU-1)\nGPU 1: NVIDIA A100 (UUID: GPU-2)\n";
    let query = "NVIDIA A100, 81920, 535.1, 4, 16\nshort line\nNVIDIA A100, 81920, 535.1\n";
    assert_eq!(
        pairs(&gpu_specs_from(listing, query)),
        vec![
            p("GPU 数量", "2"),
            p("GPU 型号", "NVIDIA A100 / NVIDIA A100"),
            p("GPU[0] 名称", "NVIDIA A100"),
            p("GPU[0] 显存(MB)", "81920"),
            p("GPU[0] 驱动版本", "535.1"),
            p("GPU[0] PCIe 最大链路", "Gen4 x16"),
            p("GPU[2] 名称", "NVIDIA A100"),
            p("GPU[2] 显存(MB)", "81920"),
            p("GPU[2] 驱动版本", "535.1"),
        ]
    );
    assert!(gpu_specs_from("", "").is_empty());
    assert_eq!(listed_gpu_name("no colon here"), None);
}

#[test]
fn cpu_items_from_cpuinfo() {
    let info = "processor\t: 0\nmodel name\t: AMD EPYC 7763\nphysical id\t: 0\nprocessor\t: 1\nmodel name\t: AMD EPYC 7763\nphysical id\t: 1\nprocessor\t: 2\nphysical id\t: 0\n";
    assert_eq!(
        pairs(&cpu_specs_from(info)),
        vec![p("CPU 型号", "AMD EPYC 7763"), p("CPU 逻辑核心数", "3"), p("CPU 物理插槽数", "2")]
    );
    assert!(cpu_specs_from("").is_empty());
}

#[test]
fn memory_system_topology_and_cuda_items() {
    let free = "               total        used\nMem:           503Gi        12Gi\n";
    assert_eq!(
        pairs(&memory_specs_from("MemTotal:       527994800 kB\nMemFree: 1 kB\n", free)),
        vec![p("内存总量", "527994800 kB"), p("内存总量(可读)", "503Gi")]
    );
    assert_eq!(pairs(&memory_specs_from("", "")), vec![p("内存总量(可读)", "")]);
    assert_eq!(
        pairs(&system_specs_from("Linux 6.8.0 x86_64", "6.8.0")),
        vec![p("操作系统", "Linux 6.8.0 x86_64"), p("内核版本", "6.8.0")]
    );
    assert_eq!(pairs(&system_specs_from("", "")), vec![p("内核版本", "")]);
    assert_eq!(pairs(&topology_specs_from("\x1b[4mGPU0\x1b[0m X")), vec![p("GPU 拓扑结构", "GPU0 X")]);
    assert!(topology_specs_from("").is_empty());
    assert_eq!(
        pairs(&cuda_specs_from("Cuda compilation tools, release 12.4, V12.4.131 \nsecond")),
        vec![p("CUDA 版本", "Cuda compilation tools, release 12.4, V12.4.131")]
    );
    assert!(cuda_specs_from("").is_empty());
}
