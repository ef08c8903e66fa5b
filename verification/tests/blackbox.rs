use llama_test_matrix::blackbox::line_triggers;
use llama_test_matrix::blackbox::{
    aer_rows, blackbox_run_id, compute_app_rows, dmon_row, gpu_metric_rows, looks_like_error,
    normalize_topo, topology_changed, trigger_decision, TriggerDecision, TriggerEvent,
};

#[test]
fn error_looking_output_is_recognised() {
    assert!(looks_like_error("Unable to determine the device handle"));
    assert!(looks_like_error("GPU 0000:3b:00.0 HAS FALLEN OFF the bus"));
    assert!(looks_like_error("NVIDIA-SMI has failed: ERR!"));
    assert!(!looks_like_error("0, NVIDIA A100, 45, 60"));
}

#[test]
fn metric_rows_skip_blank_lines() {
    assert_eq!(gpu_metric_rows("a, 1\n   \nb, 2\n", "T"), "T,a, 1\nT,b, 2\n");
    assert_eq!(gpu_metric_rows("", "T"), "");
}

#[test]
fn compute_app_rows_skip_the_no_process_notice() {
    assert_eq!(
        compute_app_rows("  123, python, 500, GPU-1  \nNo running processes found\n\n", "T"),
        "T,123, python, 500, GPU-1\n"
    );
}

#[test]
fn dmon_rows_take_the_first_three_fields() {
    assert_eq!(dmon_row("# gpu rxpci txpci", "T"), None);
    assert_eq!(dmon_row("   ", "T"), None);
    assert_eq!(dmon_row("0 12", "T"), None);
    assert_eq!(dmon_row("  0   120  340  ", "T"), Some("T,0,120,340\n".to_string()));
}

#[test]
fn aer_rows_need_four_fields() {
    assert_eq!(aer_rows("0000:3b:00.0 1 0 0\n0000:5e:00.0   \nx y z w v\n", "T"), "T,0000:3b:00.0,1,0,0\n");
}

#[test]
fn topology_compares_without_colours_and_spacing() {
    assert_eq!(normalize_topo("\x1b[4mGPU0\x1b[0m   X  \n NV12"), "GPU0 X NV12");
    let base = normalize_topo("GPU0 X NV12");
    assert!(!topology_changed(&base, "GPU0  X\tNV12\n"));
    assert!(topology_changed(&base, "GPU0 X SYS"));
    assert!(!topology_changed("", "anything"));
}

#[test]
fn triggers_respect_the_cooldown() {
    assert_eq!(trigger_decision(false, None, 60), TriggerDecision::Idle);
    assert_eq!(trigger_decision(true, None, 60), TriggerDecision::Capture);
    assert_eq!(trigger_decision(true, Some(59), 60), TriggerDecision::Suppress);
    assert_eq!(trigger_decision(true, Some(60), 60), TriggerDecision::Capture);
}

#[test]
fn run_ids_use_a_safe_host_name() {
    assert_eq!(blackbox_run_id("20240101-100000", "gpu box#1.local"), "20240101-100000-gpu_box_1.local");
    let e = TriggerEvent { source: "nvidia-smi-query".to_string(), line: "ERR".to_string() };
    assert_eq!(e.source, "nvidia-smi-query");
}

#[test]
fn trigger_lines_are_matched_by_the_pattern() {
    let pat = "(?i)xid|nvrm";
    assert_eq!(line_triggers(pat, "NVRM: Xid (PCI:0000:01:00): 79"), Some(true));
    assert_eq!(line_triggers(pat, "all quiet"), Some(false));
    assert_eq!(line_triggers(pat, ""), Some(false));
    assert_eq!(line_triggers("(", "x"), None);
}
