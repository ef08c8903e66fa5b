use llama_test_matrix::gpu::{gpu_listing_count, infer_gpu_name, infer_visible_gpu_count, parse_cuda_visible_device_count};

#[test]
fn test_parse_cuda_visible_device_count() {
    assert_eq!(parse_cuda_visible_device_count("0,1,2"), Some(3));
    assert_eq!(parse_cuda_visible_device_count("0, -1, 1"), Some(2));
    assert_eq!(parse_cuda_visible_device_count(""), None);
    assert_eq!(parse_cuda_visible_device_count("-1"), None);
}

#[test]
fn test_infer_visible_gpu_count_from_devices() {
    assert_eq!(
        infer_visible_gpu_count("all", &["CUDA0".to_string(), "CUDA1".to_string()], None),
        Some("2".to_string())
    );
    assert_eq!(infer_visible_gpu_count("none", &[], None), Some("0".to_string()));
}

#[test]
fn visible_count_falls_back_to_cuda_visible_devices() {
    assert_eq!(infer_visible_gpu_count("all", &[], Some("0,1,2,3")), Some("4".to_string()));
    assert_eq!(infer_visible_gpu_count("all", &[], Some("-1")), None);
    assert_eq!(infer_visible_gpu_count("all", &[], None), None);
}

#[test]
fn gpu_listing_counts_gpu_lines() {
    let listing = "GPU 0: NVIDIA A100 (UUID: GPU-1)\nGPU 1: NVIDIA A100 (UUID: GPU-2)\n  MIG 1g.10gb Device 0\n";
    assert_eq!(gpu_listing_count(listing), 2);
    assert_eq!(gpu_listing_count(""), 0);
}

#[test]
fn gpu_names_follow_the_selection() {
    let listing = "NVIDIA A100\nNVIDIA H100\nNVIDIA A100\n";
    assert_eq!(infer_gpu_name("none", &[], Some(listing)), Some(String::new()));
    assert_eq!(infer_gpu_name("all", &[], Some(listing)), Some("NVIDIA A100 / NVIDIA H100".to_string()));
    assert_eq!(
        infer_gpu_name("CUDA1", &["CUDA1".to_string()], Some(listing)),
        Some("NVIDIA H100".to_string())
    );
    assert_eq!(
        infer_gpu_name("CUDA9", &["CUDA9".to_string()], Some(listing)),
        Some("NVIDIA A100 / NVIDIA H100".to_string())
    );
    assert_eq!(infer_gpu_name("all", &[], Some("\n")), None);
    assert_eq!(infer_gpu_name("all", &[], None), None);
}
