use llama_test_matrix::benchmark::{
    benchmark_kind, count_text_tokens, detect_benchmark_mode, external_benchmark_command,
    count_of_match, make_prompt, make_warmup_prompt, prompt_for, read_report_counts, report_number_text, seed_fits, stable_case_seed, warmup_seed, warmup_seed_fits, tally_requests, BenchmarkKind, RequestRecord,
    StreamCounts, StreamTally,
};
use llama_test_matrix::matrix::Case;

fn sample_case() -> Case {
    Case {
        parallel_size: 1,
        num_prompts: 2,
        input_len: 64,
        output_len: 64,
        input_bucket: "short".to_string(),
        output_bucket: "short".to_string(),
        concurrency_bucket: "multi".to_string(),
    }
}

fn record(success: bool, prompt: usize, output: usize, pu: bool, ou: bool, error: &str) -> RequestRecord {
    RequestRecord {
        success,
        prompt_tokens: prompt,
        output_tokens: output,
        prompt_from_usage: pu,
        output_from_usage: ou,
        error: error.to_string(),
    }
}

#[test]
fn test_stable_case_seed_deterministic() {
    let case = sample_case();
    assert_eq!(stable_case_seed(&case, 0, 0), stable_case_seed(&case, 0, 0));
    assert_ne!(stable_case_seed(&case, 0, 0), stable_case_seed(&case, 1, 0));
}

#[test]
fn seed_is_the_weighted_sum_cut_to_32_bits() {
    let case = sample_case();
    assert_eq!(stable_case_seed(&case, 3, 5), 1_000_003 + 2 * 10_007 + 64 * 101 + 64 * 17 + 3 + 5);
    let big = Case { parallel_size: 5000, ..sample_case() };
    let value: u64 = 5000 * 1_000_003 + 2 * 10_007 + 64 * 101 + 64 * 17;
    assert_eq!(stable_case_seed(&big, 0, 0), value % (1u64 << 32));
}

#[test]
fn test_detect_benchmark_mode_explicit() {
    assert_eq!(detect_benchmark_mode("builtin", true, true), "builtin");
    assert_eq!(detect_benchmark_mode("vllm_cli", false, false), "vllm_cli");
}

#[test]
fn auto_mode_prefers_the_serving_script_then_vllm() {
    assert_eq!(detect_benchmark_mode("auto", true, true), "benchmark_serving");
    assert_eq!(detect_benchmark_mode("auto", false, true), "vllm_cli");
    assert_eq!(detect_benchmark_mode("auto", false, false), "builtin");
}

#[test]
fn test_make_prompt_length() {
    let p = make_prompt(10, 12345);
    assert!(p.starts_with(" request "));
    assert!(p.len() > 10);
}

#[test]
fn prompt_has_one_token_per_input_token() {
    assert_eq!(prompt_for(42, 3), " request 42 a a a");
    assert_eq!(prompt_for(0, 0), " request 0 a");
    let p = make_prompt(10, 7);
    assert!(p.ends_with(&" a".repeat(10)));
    let number: u32 = p[" request ".len()..p.len() - 20].parse().unwrap();
    assert!(number < 1_000_000);
}

#[test]
fn modes_name_their_tools() {
    assert_eq!(benchmark_kind("builtin"), Some(BenchmarkKind::Builtin));
    assert_eq!(benchmark_kind("benchmark_serving"), Some(BenchmarkKind::BenchmarkServing));
    assert_eq!(benchmark_kind("vllm_cli"), Some(BenchmarkKind::VllmCli));
    assert_eq!(benchmark_kind("auto"), None);
}

#[test]
fn external_commands_carry_the_case() {
    let case = Case { num_prompts: 8, input_len: 512, output_len: 128, ..sample_case() };
    let cmd = external_benchmark_command(BenchmarkKind::BenchmarkServing, "127.0.0.1", 18080, "/m.gguf", "m", &case);
    assert_eq!(&cmd[..2], &["python3".to_string(), "./benchmark_serving.py".to_string()]);
    let vllm = external_benchmark_command(BenchmarkKind::VllmCli, "h", 1, "/m.gguf", "m", &case);
    let expected: Vec<String> = [
        "vllm", "bench", "serve", "--backend", "llama.cpp", "--host", "h", "--port", "1", "--model", "/m.gguf",
        "--tokenizer", "/m.gguf", "--served-model-name", "m", "--dataset-name", "random", "--num-prompts", "8",
        "--random-input-len", "512", "--random-output-len", "128", "--ignore-eos",
    ]
    .iter()
    .map(|s| s.to_string())
    .collect();
    assert_eq!(vllm, expected);
}

#[test]
fn stream_tally_prefers_reported_usage() {
    let mut t = StreamTally::new();
    assert_eq!(t.observe(r#"{"choices":[{"text":"hello world"}]}"#), Some(false));
    assert_eq!(t.observe(r#"{"choices":[{"text":"  "}]}"#), Some(false));
    assert_eq!(t.output_chunks, 10 + 1);
    assert_eq!(t.finish(64), Some(StreamCounts { prompt_tokens: 64, output_tokens: 11, prompt_from_usage: false, output_from_usage: false }));
    assert_eq!(t.observe(r#"{"usage":{"completion_tokens":7,"prompt_tokens":70},"choices":[]}"#), Some(false));
    assert_eq!(t.observe("not json"), Some(false));
    assert_eq!(t.observe("  [DONE] "), Some(true));
    assert_eq!(t.finish(64), Some(StreamCounts { prompt_tokens: 70, output_tokens: 7, prompt_from_usage: true, output_from_usage: true }));
}

#[test]
fn stream_without_text_gives_no_counts() {
    let mut t = StreamTally::new();
    assert_eq!(t.observe(r#"{"usage":{"completion_tokens":7}}"#), Some(false));
    assert_eq!(t.finish(10), None);
    assert_eq!(count_text_tokens(""), 1);
    assert_eq!(count_text_tokens(" ab c "), 3);
}

#[test]
fn tally_counts_sums_and_sources() {
    let results = vec![
        record(true, 10, 20, true, false, ""),
        record(false, 0, 0, false, false, "boom"),
        record(true, 30, 40, true, true, ""),
    ];
    let t = tally_requests(&results);
    assert_eq!((t.successful, t.failed, t.total_input, t.total_output), (2, 1, 40, 60));
    assert_eq!(t.prompt_source, "usage");
    assert_eq!(t.output_source, "mixed");
    assert_eq!(t.failure_lines, vec!["Error 0: boom".to_string()]);
}

#[test]
fn tally_of_failures_only_and_of_nothing() {
    let t = tally_requests(&[record(false, 0, 0, false, false, "boom")]);
    assert_eq!((t.successful, t.failed), (0, 1));
    assert_eq!(t.prompt_source, "estimated");
    assert_eq!(t.output_source, "chunk_count");
    let empty = tally_requests(&[]);
    assert_eq!((empty.successful, empty.failed, empty.total_input, empty.total_output), (0, 0, 0, 0));
    assert!(empty.failure_lines.is_empty());
    let many: Vec<RequestRecord> = (0..12).map(|i| record(false, 0, 0, false, false, &format!("e{}", i))).collect();
    let t = tally_requests(&many);
    assert_eq!(t.failed, 12);
    assert_eq!(t.failure_lines.len(), 10);
    assert_eq!(t.failure_lines[9], "Error 9: e9");
}

#[test]
fn seeds_fit_unless_the_sum_overflows() {
    assert!(seed_fits(&sample_case(), 0, 0));
    assert!(!seed_fits(&sample_case(), 0, u64::MAX));
    let huge = Case { parallel_size: usize::MAX, ..sample_case() };
    assert!(!seed_fits(&huge, 0, 0));
}

#[test]
fn report_counts_and_sources_are_read() {
    let out = "Successful requests:  8\nFailed requests: 2\nPrompt token count source:  usage \nOutput token count source: tokenizer\n";
    let c = read_report_counts(out);
    assert_eq!(c.successful_requests, 8);
    assert_eq!(c.failed_requests, 2);
    assert_eq!(c.prompt_token_source, "usage");
    assert_eq!(c.output_token_source, "tokenizer");
}

#[test]
fn report_counts_default_to_zero_and_external() {
    let c = read_report_counts("nothing here\n");
    assert_eq!(c.successful_requests, 0);
    assert_eq!(c.failed_requests, 0);
    assert_eq!(c.prompt_token_source, "external");
    assert_eq!(c.output_token_source, "external");
    let blank = read_report_counts("Prompt token count source:   \n");
    assert_eq!(blank.prompt_token_source, "external");
}

#[test]
fn report_counts_take_the_last_line_and_read_i32() {
    let c = read_report_counts("Successful requests: 3\nSuccessful requests: 5\nFailed requests: 1.5\n");
    assert_eq!(c.successful_requests, 5);
    assert_eq!(c.failed_requests, 0);
    let neg = read_report_counts("Failed requests: -1\n");
    assert_eq!(neg.failed_requests, usize::MAX);
    let none = read_report_counts("Successful requests: 4\nSuccessful requests: n/a\n");
    assert_eq!(none.successful_requests, 4);
}

#[test]
fn warmup_seeds_are_salted() {
    let c = sample_case();
    assert!(warmup_seed_fits(&c, 0));
    let w = warmup_seed(&c, 0);
    assert_eq!(w, (stable_case_seed(&c, 0, 0) + 0x8000_0000) % 0x1_0000_0000);
    for j in 0..64 {
        assert_ne!(w, stable_case_seed(&c, j, 0));
    }
    assert_ne!(make_prompt(16, w), make_prompt(16, stable_case_seed(&c, 0, 0)));
}

#[test]
fn count_of_match_reads_i32_counts() {
    assert_eq!(count_of_match(Some(Some("12".to_string()))), Some(12));
    assert_eq!(count_of_match(Some(Some("1.5".to_string()))), Some(0));
    assert_eq!(count_of_match(Some(Some("-2".to_string()))), Some(usize::MAX - 1));
    assert_eq!(count_of_match(Some(None)), None);
    assert_eq!(count_of_match(None), None);
}

#[test]
fn warmup_prompts_carry_their_own_word() {
    let c = sample_case();
    let seed = warmup_seed(&c, 0);
    let w = make_warmup_prompt(3, seed);
    assert!(w.starts_with(" warmup "));
    assert!(w.ends_with(" a a a"));
    let m = make_prompt(3, stable_case_seed(&c, 0, 0));
    assert!(m.starts_with(" request "));
    assert_ne!(w, m);
}

#[test]
fn report_number_text_takes_the_last_line() {
    let out = "Mean TTFT (ms): 12.5\nMean TTFT (ms): 13.25 ms\nMean TPOT (ms): n/a\n";
    assert_eq!(report_number_text(out, "Mean TTFT (ms):"), Some("13.25".to_string()));
    assert_eq!(report_number_text(out, "Mean TPOT (ms):"), None);
    assert_eq!(report_number_text(out, "Benchmark duration (s):"), None);
}
