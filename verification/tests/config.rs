use llama_test_matrix::config::{build_matrix_settings, settings_from_normalized, ConfigError, RunEnvironment, RunOptions};

fn options() -> RunOptions {
    RunOptions {
        llama_server_bin: None,
        model_path: Some("/tmp/m.gguf".to_string()),
        model_name: Some("m".to_string()),
        port: None,
        dtype: None,
        gpu_devices: None,
        report_model_name: None,
        report_precision: None,
        report_machine_type: None,
        report_gpu_name: None,
        benchmark_mode: None,
        ctx_strategy: "progressive".to_string(),
        progress: "plain".to_string(),
        io_points: None,
        prompt_points: None,
        sleep_between_cases: None,
        warmup_count: None,
        max_batch_size: None,
        gpu_layers: None,
    }
}

fn no_env() -> RunEnvironment {
    RunEnvironment {
        llama_server_bin: None,
        devices: None,
        gpu_devices: None,
        report_machine_type: None,
        report_gpu_name: None,
        benchmark_mode: None,
        io_points: None,
        prompt_points: None,
        sleep_between_cases: None,
        warmup_count: None,
        max_batch_size: None,
        gpu_layers: None,
    }
}

#[test]
fn test_build_matrix_config_requires_model() {
    let o = RunOptions { model_path: None, ..options() };
    assert!(build_matrix_settings(&o, &no_env()).is_err());
    assert_eq!(build_matrix_settings(&o, &no_env()).unwrap_err(), ConfigError::MissingModelPath);
}

#[test]
fn test_build_matrix_config_requires_model_name() {
    let o = RunOptions { model_name: None, ..options() };
    assert!(build_matrix_settings(&o, &no_env()).is_err());
    assert_eq!(build_matrix_settings(&o, &no_env()).unwrap_err(), ConfigError::MissingModelName);
}

#[test]
fn test_build_matrix_config_defaults() {
    let cfg = build_matrix_settings(&options(), &no_env()).unwrap();
    assert_eq!(cfg.port, 18080);
    assert_eq!(cfg.dtype, "q3_k_xl");
    assert_eq!(cfg.gpu_devices, "all");
    assert_eq!(cfg.ctx_strategy, "progressive");
    assert_eq!(cfg.progress, "plain");
    assert_eq!(cfg.io_points, 4);
    assert_eq!(cfg.prompt_points, 3);
    assert_eq!(cfg.sleep_between_cases, 10);
    assert_eq!(cfg.warmup_count, 5);
    assert_eq!(cfg.max_batch_size, 2048);
    assert_eq!(cfg.gpu_layers, 99);
    assert_eq!(cfg.llama_server_bin, "llama-server");
    assert_eq!(cfg.report_model_name, "m");
    assert_eq!(cfg.report_precision, "Q3_K_XL");
    assert_eq!(cfg.report_machine_type, "");
    assert_eq!(cfg.report_gpu_name, None);
    assert_eq!(cfg.benchmark_mode, "auto");
}

#[test]
fn test_build_matrix_config_invalid_ctx_strategy() {
    let o = RunOptions { ctx_strategy: "invalid".to_string(), ..options() };
    assert!(build_matrix_settings(&o, &no_env()).is_err());
    assert_eq!(build_matrix_settings(&o, &no_env()).unwrap_err(), ConfigError::InvalidCtxStrategy);
}

#[test]
fn test_build_matrix_config_invalid_progress() {
    let o = RunOptions { progress: "fancy".to_string(), ..options() };
    assert!(build_matrix_settings(&o, &no_env()).is_err());
    assert_eq!(build_matrix_settings(&o, &no_env()).unwrap_err(), ConfigError::InvalidProgress);
}

#[test]
fn settings_take_the_environment_behind_the_options() {
    let env = RunEnvironment {
        llama_server_bin: Some("".to_string()),
        devices: Some("0,1".to_string()),
        gpu_devices: Some("2".to_string()),
        report_machine_type: Some("8F".to_string()),
        report_gpu_name: Some("".to_string()),
        benchmark_mode: Some("builtin".to_string()),
        io_points: Some("6".to_string()),
        prompt_points: Some("x".to_string()),
        sleep_between_cases: Some("+3".to_string()),
        warmup_count: Some("0".to_string()),
        max_batch_size: None,
        gpu_layers: Some("40".to_string()),
    };
    let o = RunOptions { ctx_strategy: "MAX-FIRST".to_string(), io_points: Some(2), ..options() };
    let cfg = build_matrix_settings(&o, &env).unwrap();
    assert_eq!(cfg.llama_server_bin, "llama-server");
    assert_eq!(cfg.gpu_devices, "0,1");
    assert_eq!(cfg.report_machine_type, "8F");
    assert_eq!(cfg.report_gpu_name, None);
    assert_eq!(cfg.benchmark_mode, "builtin");
    assert_eq!(cfg.ctx_strategy, "max-first");
    assert_eq!(cfg.io_points, 2);
    assert_eq!(cfg.prompt_points, 3);
    assert_eq!(cfg.sleep_between_cases, 3);
    assert_eq!(cfg.warmup_count, 0);
    assert_eq!(cfg.gpu_layers, 40);
}

#[test]
fn normalized_settings_refuse_unlowered_names() {
    let o = options();
    let r = settings_from_normalized(&o, &no_env(), "Progressive".to_string(), "plain".to_string(), "Q".to_string());
    assert!(matches!(r, Err(ConfigError::InvalidCtxStrategy)));
    let r = settings_from_normalized(&o, &no_env(), "max-first".to_string(), "PLAIN".to_string(), "Q".to_string());
    assert!(matches!(r, Err(ConfigError::InvalidProgress)));
    let s = settings_from_normalized(&o, &no_env(), "max-first".to_string(), "none".to_string(), "Q".to_string()).unwrap();
    assert_eq!(s.ctx_strategy, "max-first");
    assert_eq!(s.progress, "none");
    assert_eq!(s.report_precision, "Q");
}

#[test]
fn settings_lowercase_the_strategy_and_progress() {
    let mut o = options();
    o.ctx_strategy = "Max-First".to_string();
    o.progress = "NONE".to_string();
    let s = build_matrix_settings(&o, &no_env()).unwrap();
    assert_eq!(s.ctx_strategy, "max-first");
    assert_eq!(s.progress, "none");
    assert_eq!(s.report_precision, "Q3_K_XL");
}
