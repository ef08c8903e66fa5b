use llama_test_matrix::matrix::Case;
use llama_test_matrix::progress::ProgressTracker;

fn sample_case() -> Case {
    Case {
        parallel_size: 2,
        num_prompts: 4,
        input_len: 64,
        output_len: 128,
        input_bucket: "short".to_string(),
        output_bucket: "mid".to_string(),
        concurrency_bucket: "multi".to_string(),
    }
}

#[test]
fn progress_counts_statuses_in_order() {
    let mut t = ProgressTracker::new(4, "plain".to_string(), false);
    assert!(t.update("completed"));
    assert!(t.update("startup_failed"));
    assert!(t.update("completed"));
    assert!(t.update("case_failed"));
    assert_eq!(t.current, 4);
    assert_eq!(t.statuses, vec!["case_failed", "completed", "startup_failed"]);
    assert_eq!(t.counts, vec![1, 2, 1]);
    assert_eq!(t.counts.iter().sum::<usize>(), t.current);
    assert_eq!(
        t.summary_line(),
        Some("进度完成: 4/4 | case_failed=1, completed=2, startup_failed=1".to_string())
    );
}

#[test]
fn progress_message_and_line_ends() {
    let mut t = ProgressTracker::new(3, "plain".to_string(), true);
    t.update("completed");
    assert_eq!(
        t.message(&sample_case(), "completed", " 33.3", 125),
        "进度 1/3 ( 33.3%) ETA 2m05s | completed | p2-c4-shortin-midout-i64-o128"
    );
    assert_eq!(t.line_end(), "\r");
    assert!(t.breaks_before_message());
    t.update("completed");
    t.update("completed");
    assert_eq!(t.line_end(), "\n");
    assert!(!t.breaks_before_message());
}

#[test]
fn progress_mode_none_reports_nothing() {
    let mut t = ProgressTracker::new(3, "none".to_string(), false);
    assert!(!t.update("completed"));
    assert_eq!(t.current, 0);
    assert!(!t.shows_messages());
    assert_eq!(t.summary_line(), None);
    let mut empty = ProgressTracker::new(0, "plain".to_string(), false);
    assert!(!empty.update("completed"));
    assert_eq!(empty.summary_line(), None);
}

#[test]
fn progress_write_and_close_texts() {
    let mut t = ProgressTracker::new(2, "plain".to_string(), true);
    assert_eq!(t.write("hello".to_string()), Some("\nhello\n".to_string()));
    t.update("completed");
    t.update("failed");
    assert_eq!(t.write("bye".to_string()), Some("bye\n".to_string()));
    assert_eq!(t.close(), Some("\n进度完成: 2/2 | completed=1, failed=1\n".to_string()));
    let quiet = ProgressTracker::new(2, "none".to_string(), false);
    assert_eq!(quiet.write("x".to_string()), None);
    assert_eq!(quiet.close(), None);
    let plain = ProgressTracker::new(1, "plain".to_string(), false);
    assert_eq!(plain.close(), Some("进度完成: 0/1 | \n".to_string()));
}
