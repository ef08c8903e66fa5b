use llama_test_matrix::matrix::Case;
use llama_test_matrix::report::{
    blocks_from_matches, case_block_of, company_mode, company_remarks, completed_case_blocks, last_case_index, report_row_order, summary_header_fields,
    summary_header_matches,
};

fn sample_case() -> Case {
    Case {
        parallel_size: 1,
        num_prompts: 8,
        input_len: 512,
        output_len: 512,
        input_bucket: "short".to_string(),
        output_bucket: "short".to_string(),
        concurrency_bucket: "multi".to_string(),
    }
}

#[test]
fn test_company_mode() {
    let c = sample_case();
    assert_eq!(company_mode(&c), "短输入短输出");
}

#[test]
fn company_mode_of_other_buckets() {
    let mut c = sample_case();
    c.input_bucket = "long".to_string();
    c.output_bucket = "warmup".to_string();
    assert_eq!(company_mode(&c), "长输入mid输出");
}

#[test]
fn company_remarks_list_the_run_settings() {
    assert_eq!(
        company_remarks("builtin", 1, 4096, 512, "all", "usage", "usage", 0, ""),
        "backend=llama.cpp; benchmark=builtin; server_slots=1; ctx=4096; batch=512; gpu_devices=all; token_source=usage / usage"
    );
    assert_eq!(
        company_remarks("vllm_cli", 2, 8192, 1024, "CUDA0", "", "", 3, " bad\n  thing "),
        "backend=llama.cpp; benchmark=vllm_cli; server_slots=2; ctx=8192; batch=1024; gpu_devices=CUDA0; failed_requests=3; error=bad thing"
    );
    assert_eq!(
        company_remarks("builtin", 1, 1, 1, "all", "", "chunk_count", 0, ""),
        "backend=llama.cpp; benchmark=builtin; server_slots=1; ctx=1; batch=1; gpu_devices=all; token_source=- / chunk_count"
    );
}

#[test]
fn report_keeps_the_last_row_of_each_case_in_plan_order() {
    // rows found for cases 2, 0, 2, 1 (positions 0..4); case 3 has none
    assert_eq!(report_row_order(&vec![2, 0, 2, 1], 4), vec![1, 3, 2]);
    assert_eq!(report_row_order(&vec![], 3), Vec::<usize>::new());
}

#[test]
fn summary_header_is_recognised() {
    let header = summary_header_fields().join(",");
    assert!(header.starts_with("timestamp,model_name,gpu_devices"));
    assert!(summary_header_matches(&header));
    assert!(!summary_header_matches("wrong,header"));
    assert!(!summary_header_matches(""));
}

fn sample_log() -> String {
    let mut log = String::new();
    log.push_str("===== run_id=old started_at=x model=m dtype=q =====\n");
    log.push_str("开始 1/1 p1-c8-shortin-shortout-i512-o512 ctx=1024 batch=64 dtype=q 测试\n");
    log.push_str("status=completed error=\n");
    log.push_str("===== run_id=r1 started_at=y model=m dtype=q =====\n");
    log.push_str("开始 1/3 p1-c8-shortin-shortout-i512-o512 ctx=4096 batch=512 dtype=q3_k_xl 测试\n");
    log.push_str("Successful requests: 8\n");
    log.push_str("status=completed error=\n");
    log.push_str("开始 2/3 p2-c8-shortin-shortout-i512-o512 ctx=8192 batch=512 dtype=q3_k_xl 测试\n");
    log.push_str("status=benchmark_failed error=boom\n");
    log.push_str("开始 3/3 p4-c8-shortin-shortout-i512-o512 ctx=16384 batch=1024 dtype=q3_k_xl 测试\n");
    log.push_str("status=completed error=slow start\n");
    log
}

#[test]
fn completed_blocks_of_the_last_run_are_read() {
    let blocks = completed_case_blocks(&sample_log(), "r1");
    assert_eq!(blocks.len(), 2);
    assert_eq!(blocks[0].case_id, "p1-c8-shortin-shortout-i512-o512");
    assert_eq!(blocks[0].ctx_size, 4096);
    assert_eq!(blocks[0].batch_size, 512);
    assert_eq!(blocks[0].error, "");
    assert_eq!(blocks[0].body, "\nSuccessful requests: 8\nstatus=completed error=\n");
    assert_eq!(blocks[1].case_id, "p4-c8-shortin-shortout-i512-o512");
    assert_eq!(blocks[1].ctx_size, 16384);
    assert_eq!(blocks[1].batch_size, 1024);
    assert_eq!(blocks[1].error, "slow start");
}

#[test]
fn completed_blocks_of_an_earlier_run_are_found_after_its_marker() {
    let blocks = completed_case_blocks(&sample_log(), "old");
    assert_eq!(blocks.len(), 3);
    assert_eq!(blocks[0].ctx_size, 1024);
    assert_eq!(blocks[0].batch_size, 64);
}

#[test]
fn completed_blocks_of_a_missing_run_are_none() {
    assert!(completed_case_blocks(&sample_log(), "r2").is_empty());
    assert!(completed_case_blocks("", "r1").is_empty());
}

#[test]
fn last_case_index_finds_the_last_case_with_the_id() {
    let a = sample_case();
    let mut b = sample_case();
    b.parallel_size = 2;
    let cases = vec![a.clone(), b, a];
    assert_eq!(last_case_index(&cases, "p1-c8-shortin-shortout-i512-o512"), Some(2));
    assert_eq!(last_case_index(&cases, "p2-c8-shortin-shortout-i512-o512"), Some(1));
    assert_eq!(last_case_index(&cases, "p9-c8-shortin-shortout-i512-o512"), None);
}

fn groups(v: &[Option<&str>]) -> Vec<Option<String>> {
    v.iter().map(|g| g.map(|s| s.to_string())).collect()
}

#[test]
fn case_block_of_reads_a_completed_block() {
    let header = groups(&[Some("h"), Some("p1"), Some("4096"), Some("x"), Some("q")]);
    let status = Some(vec![groups(&[Some("s"), Some("completed"), Some("late")])]);
    let b = case_block_of(&header, "body".to_string(), status).unwrap();
    assert_eq!(b.case_id, "p1");
    assert_eq!(b.ctx_size, 4096);
    assert_eq!(b.batch_size, 0);
    assert_eq!(b.error, "late");
    assert_eq!(b.body, "body");
    let failed = Some(vec![groups(&[Some("s"), Some("failed"), Some("")])]);
    assert!(case_block_of(&header, "b".to_string(), failed).is_none());
    assert!(case_block_of(&header, "b".to_string(), Some(vec![])).is_none());
    assert!(case_block_of(&header, "b".to_string(), None).is_none());
}

#[test]
fn blocks_from_matches_pairs_headers_with_the_pieces_after_them() {
    let headers = vec![
        groups(&[Some("h1"), Some("a"), Some("1"), Some("2"), Some("q")]),
        groups(&[Some("h2"), Some("b"), Some("3"), Some("4"), Some("q")]),
    ];
    let pieces = vec![
        "before".to_string(),
        "\nstatus=failed error=x\n".to_string(),
        "\nstatus=completed error=\n".to_string(),
    ];
    let blocks = blocks_from_matches(&headers, &pieces);
    assert_eq!(blocks.len(), 1);
    assert_eq!(blocks[0].case_id, "b");
    assert_eq!(blocks[0].ctx_size, 3);
    assert_eq!(blocks[0].batch_size, 4);
    assert_eq!(blocks[0].body, "\nstatus=completed error=\n");
}
