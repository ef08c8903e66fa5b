use llama_test_matrix::matrix::Case;
use llama_test_matrix::runner::{
    case_header, case_outcome, cases_for_parallel, group_action, group_failed, mark_failed,
    matching_failure, result_log_name, run_file_name, run_marker, run_search_marker,
    service_log_name, status_line, warmup_case, warmup_cases, GroupAction,
};

fn case(parallel_size: usize, num_prompts: usize, input_len: usize, output_len: usize) -> Case {
    Case {
        parallel_size,
        num_prompts,
        input_len,
        output_len,
        input_bucket: "short".to_string(),
        output_bucket: "mid".to_string(),
        concurrency_bucket: if num_prompts == 1 { "single".to_string() } else { "multi".to_string() },
    }
}

#[test]
fn test_matching_failure() {
    let failures = vec![(2, 100)];
    assert_eq!(matching_failure(&failures, 100, 2), Some((2, 100)));
    assert_eq!(matching_failure(&failures, 100, 1), None);
    assert_eq!(matching_failure(&failures, 99, 2), None);
}

#[test]
fn test_mark_failed() {
    let mut failures = Vec::new();
    mark_failed(&mut failures, 100, 2);
    assert_eq!(failures, vec![(2, 100)]);
    mark_failed(&mut failures, 100, 2);
    assert_eq!(failures, vec![(2, 100)]);
    mark_failed(&mut failures, 90, 1);
    assert_eq!(failures, vec![(1, 90)]);
    mark_failed(&mut failures, 200, 4);
    assert_eq!(failures, vec![(1, 90)]);
    mark_failed(&mut failures, 50, 1);
    assert_eq!(failures, vec![(1, 50)]);
}

#[test]
fn recorded_failure_rules_out_larger_groups_only() {
    let mut failures = Vec::new();
    mark_failed(&mut failures, 100, 2);
    assert_eq!(matching_failure(&failures, 4000, 8), Some((2, 100)));
    assert_eq!(matching_failure(&failures, 4000, 1), None);
    mark_failed(&mut failures, 50, 8);
    assert_eq!(failures, vec![(2, 100), (8, 50)]);
    assert_eq!(matching_failure(&failures, 60, 8), Some((8, 50)));
}

#[test]
fn groups_run_until_one_fails_then_the_rest_are_skipped() {
    let grouped = vec![(144usize, vec![case(2, 1, 64, 64)]), (272, vec![case(2, 1, 128, 128)]), (528, vec![case(2, 1, 256, 256)])];
    let mut failures: Vec<(usize, usize)> = Vec::new();
    match group_action(&failures, &grouped, 2, 0) {
        GroupAction::Run { ctx_size } => assert_eq!(ctx_size, 288),
        other => panic!("unexpected {:?}", other),
    }
    match group_failed(&mut failures, &grouped, 2, 1) {
        GroupAction::Skip { from_group, status, error } => {
            assert_eq!(from_group, 2);
            assert_eq!(status, "skipped_after_startup_limit");
            assert_eq!(error, "ctx=544 启动失败；按单调递增假设，更长上下文自动跳过");
        }
        other => panic!("unexpected {:?}", other),
    }
    assert_eq!(failures, vec![(2, 272)]);
    match group_failed(&mut failures, &grouped, 2, 2) {
        GroupAction::Finish => {}
        other => panic!("unexpected {:?}", other),
    }
    match group_action(&failures, &grouped, 4, 1) {
        GroupAction::Skip { from_group, status, error } => {
            assert_eq!(from_group, 1);
            assert_eq!(status, "skipped_after_global_startup_limit");
            assert_eq!(
                error,
                "required_context_per_slot=272 已达到或超过 parallel=2 的启动失败阈值 272；当前 parallel 不小于失败档位，自动跳过"
            );
        }
        other => panic!("unexpected {:?}", other),
    }
    match group_action(&failures, &grouped, 4, 3) {
        GroupAction::Finish => {}
        other => panic!("unexpected {:?}", other),
    }
}

#[test]
fn case_outcomes_follow_the_status_table() {
    assert_eq!(case_outcome(&Ok((8, 0)), false, "tail"), ("completed".to_string(), String::new()));
    assert_eq!(
        case_outcome(&Ok((0, 3)), false, "tail"),
        ("case_failed".to_string(), "all requests failed".to_string())
    );
    assert_eq!(
        case_outcome(&Err("boom".to_string()), false, "tail"),
        ("case_exception".to_string(), "boom".to_string())
    );
    assert_eq!(case_outcome(&Ok((0, 3)), true, "oom"), ("server_crashed".to_string(), "oom".to_string()));
    assert_eq!(
        case_outcome(&Err("boom".to_string()), true, "oom"),
        (
            "server_crashed".to_string(),
            "case_status=case_exception; case_error=boom; server_error=oom".to_string()
        )
    );
}

#[test]
fn warmup_cases_come_from_the_group() {
    let cases = vec![case(2, 4, 64, 128), case(2, 8, 512, 512)];
    let w = warmup_cases(&cases, 5);
    assert_eq!(w.len(), 5);
    for c in &w {
        assert_eq!(c.input_bucket, "warmup");
        assert_eq!(c.output_bucket, "warmup");
        assert_eq!(c.concurrency_bucket, "warmup");
        assert!(cases.iter().any(|b| b.input_len == c.input_len && b.num_prompts == c.num_prompts));
    }
    assert!(warmup_cases(&[], 5).is_empty());
    let one = warmup_case(&cases[1]);
    assert_eq!((one.parallel_size, one.num_prompts, one.input_len, one.output_len), (2, 8, 512, 512));
}

#[test]
fn file_names_and_log_lines() {
    assert_eq!(result_log_name("qwen", 4, "q3"), "qwen-4-q3.log");
    assert_eq!(service_log_name("qwen", 4, "q3", 8192, 2), "qwen-4-q3-ctx8192-attempt2-service.log");
    assert_eq!(run_file_name("qwen", "q3", "matrix-plan.jsonl"), "qwen-q3-matrix-plan.jsonl");
    let marker = run_marker("r1", "2024-01-01 10:00:00", "m", "q3");
    assert_eq!(marker, "\n\n===== run_id=r1 started_at=2024-01-01 10:00:00 model=m dtype=q3 =====\n");
    assert!(marker.contains(&run_search_marker("r1")));
    let c = case(2, 4, 64, 128);
    assert_eq!(
        case_header(3, 10, &c, 4096, 512, "q3"),
        "\n\n******************************开始 3/10 p2-c4-shortin-midout-i64-o128 ctx=4096 batch=512 dtype=q3 测试*******************************\n"
    );
    assert_eq!(status_line("completed", "  a\n b "), "status=completed error=a b");
}

#[test]
fn cases_are_split_by_slot_count() {
    let cases = vec![case(1, 1, 64, 64), case(2, 1, 64, 64), case(1, 8, 64, 64)];
    let ones = cases_for_parallel(&cases, 1);
    assert_eq!(ones, vec![case(1, 1, 64, 64), case(1, 8, 64, 64)]);
    assert!(cases_for_parallel(&cases, 4).is_empty());
}
