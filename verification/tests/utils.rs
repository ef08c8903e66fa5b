use llama_test_matrix::utils::{format_seconds, normalize_error, tail_lines};

#[test]
fn test_format_seconds() {
    assert_eq!(format_seconds(45), "45s");
    assert_eq!(format_seconds(125), "2m05s");
    assert_eq!(format_seconds(3665), "1h01m");
}

#[test]
fn test_normalize_error() {
    assert_eq!(normalize_error("  a\n\tb   c  "), "a b c");
    assert_eq!(normalize_error(""), "");
    let long = "x ".repeat(300);
    assert_eq!(normalize_error(&long).len(), 500);
}

#[test]
fn tail_keeps_the_last_lines() {
    let text: String = (0..20).map(|i| format!("line {}\n", i)).collect();
    assert_eq!(tail_lines(&text, 5), "line 15\nline 16\nline 17\nline 18\nline 19");
    assert_eq!(tail_lines("a\nb", 10), "a\nb");
    assert_eq!(tail_lines("", 3), "");
}

#[test]
fn durations_of_zero_and_whole_hours() {
    assert_eq!(format_seconds(0), "0s");
    assert_eq!(format_seconds(60), "1m00s");
    assert_eq!(format_seconds(7200), "2h00m");
}

#[test]
fn test_tail_file_existing() {
    let mut text = String::new();
    for i in 0..20 {
        text.push_str(&format!("line {}\n", i));
    }
    assert_eq!(tail_lines(&text, 5), "line 15\nline 16\nline 17\nline 18\nline 19");
}
