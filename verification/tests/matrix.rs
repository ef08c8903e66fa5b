use llama_test_matrix::matrix::{axis_fits_check, axis_values, AxisSampling};
use llama_test_matrix::matrix::{
    auto_batch_size, bucket, grouped_by_required_context, max_first_ctx_size, nice_points,
    parallel_points, parse_gpu_devices, parse_int_list, parse_range, plan_cases, prompt_points,
    Case, MatrixErrorKind, PlanError, CTX_MARGIN,
};
use llama_test_matrix::text::IntErrorKind;

fn case(parallel_size: usize, num_prompts: usize, input_len: usize, output_len: usize, ib: &str, ob: &str, cb: &str) -> Case {
    Case {
        parallel_size,
        num_prompts,
        input_len,
        output_len,
        input_bucket: ib.to_string(),
        output_bucket: ob.to_string(),
        concurrency_bucket: cb.to_string(),
    }
}

#[test]
fn test_nice_points() {
    assert_eq!(nice_points(64, 4096, 4), vec![64, 256, 1024, 4096]);
    assert_eq!(nice_points(512, 50000, 4), vec![512, 2048, 16384, 50000]);
}

#[test]
fn test_parallel_points() {
    assert_eq!(parallel_points(1, 8), vec![1, 2, 4, 8]);
    assert_eq!(parallel_points(1, 4), vec![1, 2, 4]);
}

#[test]
fn test_parse_gpu_devices() {
    assert_eq!(parse_gpu_devices("all").unwrap(), ("all".to_string(), vec![]));
    assert_eq!(
        parse_gpu_devices("none").unwrap(),
        ("none".to_string(), vec!["none".to_string()])
    );
    assert_eq!(parse_gpu_devices("0-2").unwrap().1, vec!["CUDA0", "CUDA1", "CUDA2"]);
    assert_eq!(parse_gpu_devices("CUDA0,CUDA1").unwrap().1, vec!["CUDA0", "CUDA1"]);
    assert_eq!(parse_gpu_devices("0,2,4").unwrap().1, vec!["CUDA0", "CUDA2", "CUDA4"]);
    assert!(parse_gpu_devices("2-1").is_err());
}

#[test]
fn test_parse_range() {
    assert_eq!(parse_range("64-4096", "x").unwrap(), (64, 4096));
    assert_eq!(parse_range("512,50000", "x").unwrap(), (512, 50000));
    assert_eq!(parse_range("128", "x").unwrap(), (128, 128));
    assert!(parse_range("0-10", "x").is_err());
    assert!(parse_range("10-5", "x").is_err());
    assert!(parse_range("abc", "x").is_err());
}

#[test]
fn test_parse_int_list() {
    assert_eq!(parse_int_list("1,4,8", "x").unwrap(), vec![1, 4, 8]);
    assert_eq!(parse_int_list("1,1,4", "x").unwrap(), vec![1, 4]);
    assert!(parse_int_list("", "x").is_err());
    assert!(parse_int_list("1,0", "x").is_err());
}

#[test]
fn test_bucket() {
    let points = vec![64, 256, 1024, 4096];
    assert_eq!(bucket(64, &points), "short");
    assert_eq!(bucket(256, &points), "mid");
    assert_eq!(bucket(4096, &points), "long");
}

#[test]
fn test_auto_batch_size() {
    assert_eq!(auto_batch_size(256, 2048), 512);
    assert_eq!(auto_batch_size(512, 2048), 512);
    assert_eq!(auto_batch_size(768, 2048), 1024);
    assert_eq!(auto_batch_size(1024, 2048), 1024);
    assert_eq!(auto_batch_size(2048, 2048), 2048);
    assert_eq!(auto_batch_size(2048, 512), 512);
}

#[test]
fn test_prompt_points() {
    assert_eq!(prompt_points(1, 32, 3), vec![1, 8, 32]);
    assert_eq!(prompt_points(2, 32, 3), vec![2, 8, 32]);
}

#[test]
fn test_grouped_by_required_context() {
    let cases = vec![
        case(1, 1, 64, 64, "short", "short", "single"),
        case(1, 2, 64, 64, "short", "short", "multi"),
        case(1, 1, 128, 64, "mid", "short", "single"),
    ];
    let grouped = grouped_by_required_context(&cases);
    assert_eq!(grouped.len(), 2);
    assert_eq!(grouped[0].0, 64 + 64 + CTX_MARGIN);
    assert_eq!(grouped[0].1.len(), 2);
    assert_eq!(grouped[1].0, 128 + 64 + CTX_MARGIN);
}

#[test]
fn test_case_id_and_required_context() {
    let c = case(2, 4, 64, 128, "short", "mid", "multi");
    assert_eq!(c.case_id(), "p2-c4-shortin-midout-i64-o128".to_string());
    assert_eq!(c.required_context_per_slot(), 64 + 128 + CTX_MARGIN);
}

#[test]
fn parse_errors_name_their_kind_and_parameter() {
    let e = parse_range("0-10", "输入长度").unwrap_err();
    assert_eq!(e.kind, MatrixErrorKind::InvalidRange);
    assert_eq!(e.name, "输入长度");
    assert_eq!(e.value, "0-10");
    assert_eq!(parse_range("abc", "x").unwrap_err().kind, MatrixErrorKind::InvalidNumber(IntErrorKind::InvalidDigit));
    assert_eq!(parse_int_list("", "x").unwrap_err().kind, MatrixErrorKind::EmptyList);
    assert_eq!(parse_int_list("1,0", "x").unwrap_err().kind, MatrixErrorKind::NonPositiveItem);
    assert_eq!(parse_gpu_devices("2-1").unwrap_err().kind, MatrixErrorKind::ReversedDeviceRange);
}

#[test]
fn ranges_accept_tilde_and_spaces() {
    assert_eq!(parse_range(" 64 ~ 4096 ", "x").unwrap(), (64, 4096));
    assert_eq!(parse_range("512，50000", "x").unwrap(), (512, 50000));
}

#[test]
fn points_are_increasing_and_within_bounds() {
    for (lo, hi, n) in [(64usize, 4096usize, 4usize), (1, 1, 3), (100, 150, 5), (3, 1000, 2)] {
        let p = nice_points(lo, hi, n);
        assert!(p.windows(2).all(|w| w[0] < w[1]));
        assert_eq!(p[0], lo);
        assert_eq!(*p.last().unwrap(), hi);
    }
    assert_eq!(parallel_points(1, 16), vec![1, 2, 4, 8, 12, 16]);
    assert_eq!(parallel_points(3, 3), vec![3]);
}

#[test]
fn plan_is_cartesian_product_unless_paired() {
    let cases = plan_cases(&vec![1, 2], &vec![1, 8, 32], &vec![64, 512], &vec![64, 512, 2048], false, false).unwrap();
    assert_eq!(cases.len(), 2 * 3 * 2 * 3);
    assert_eq!(cases[0].parallel_size, 1);
    assert_eq!(cases[0].num_prompts, 1);
    assert_eq!(cases[0].concurrency_bucket, "single");
    assert_eq!(cases[3].output_len, 64);
    assert_eq!(cases[3].input_len, 512);
    let paired = plan_cases(&vec![1, 4], &vec![1, 4], &vec![512, 2048], &vec![512, 2048], true, true).unwrap();
    assert_eq!(paired.len(), 4);
    assert_eq!(paired[3].parallel_size, 4);
    assert_eq!(paired[3].num_prompts, 4);
    assert_eq!(paired[3].input_len, 2048);
    assert_eq!(paired[3].output_len, 2048);
    assert_eq!(paired[3].input_bucket, "long");
    assert_eq!(
        plan_cases(&vec![1, 2], &vec![1], &vec![64], &vec![64], true, false).unwrap_err(),
        PlanError::UnpairedSlotsAndPrompts
    );
    assert_eq!(
        plan_cases(&vec![1], &vec![1], &vec![64, 128], &vec![64], false, true).unwrap_err(),
        PlanError::UnpairedInputsAndOutputs
    );
}

#[test]
fn max_first_context_uses_longest_lengths() {
    assert_eq!(max_first_ctx_size(&vec![64, 4096], &vec![512, 128], 4), (4096 + 512 + 16) * 4);
    assert_eq!(max_first_ctx_size(&vec![], &vec![], 2), (64 + 64 + 16) * 2);
}

#[test]
fn every_parse_error_kind_has_an_input() {
    assert_eq!(parse_gpu_devices(" , ").unwrap_err().kind, MatrixErrorKind::NoDevices);
    assert_eq!(parse_range("-5", "x").unwrap_err().kind, MatrixErrorKind::InvalidNumber(IntErrorKind::Empty));
    assert_eq!(
        parse_range("99999999999999999999999", "x").unwrap_err().kind,
        MatrixErrorKind::InvalidNumber(IntErrorKind::PosOverflow)
    );
    assert_eq!(parse_gpu_devices("cpu").unwrap(), ("none".to_string(), vec!["none".to_string()]));
    assert_eq!(parse_gpu_devices("cuda1, 3").unwrap(), ("CUDA1,CUDA3".to_string(), vec!["CUDA1".to_string(), "CUDA3".to_string()]));
}

#[test]
fn axis_values_take_the_list_else_the_range() {
    let list = Some("3,1".to_string());
    assert_eq!(axis_values(&list, &None, "1-8", "n", AxisSampling::Slots).unwrap(), vec![3, 1]);
    assert!(axis_fits_check(&None, &None, "1-8", AxisSampling::Slots));
    assert_eq!(axis_values(&None, &None, "1-8", "n", AxisSampling::Slots).unwrap(), vec![1, 2, 4, 8]);
    assert_eq!(axis_values(&None, &Some("1-32".to_string()), "1-8", "n", AxisSampling::Prompts(3)).unwrap(), vec![1, 8, 32]);
    let e = axis_values(&None, &Some("9-2".to_string()), "1-8", "n", AxisSampling::Nice(4)).unwrap_err();
    assert_eq!(e.kind, MatrixErrorKind::InvalidRange);
    assert_eq!(e.value, "9-2");
    assert!(!axis_fits_check(&None, &Some(format!("1-{}", usize::MAX)), "1-8", AxisSampling::Nice(4)));
    assert!(axis_fits_check(&None, &Some(format!("1-{}", usize::MAX)), "1-8", AxisSampling::Slots));
}
