//! The settings of a matrix run, from the command line with the
//! environment and the built-in defaults behind it.
use vstd::prelude::*;
use crate::text::{
    lowered, parse_u64, parse_u64_text, parse_usize, parse_usize_chars, chars_of, text_eq,
    to_lowercase, to_uppercase, uppered,
};

verus! {

/// The options of a matrix run as given on the command line (those the
/// settings are built from).
#[derive(Clone, Debug)]
pub struct RunOptions {
    pub llama_server_bin: Option<String>,
    pub model_path: Option<String>,
    pub model_name: Option<String>,
    pub port: Option<u16>,
    pub dtype: Option<String>,
    pub gpu_devices: Option<String>,
    pub report_model_name: Option<String>,
    pub report_precision: Option<String>,
    pub report_machine_type: Option<String>,
    pub report_gpu_name: Option<String>,
    pub benchmark_mode: Option<String>,
    pub ctx_strategy: String,
    pub progress: String,
    pub io_points: Option<usize>,
    pub prompt_points: Option<usize>,
    pub sleep_between_cases: Option<u64>,
    pub warmup_count: Option<usize>,
    pub max_batch_size: Option<usize>,
    pub gpu_layers: Option<usize>,
}

/// The environment variables a matrix run reads, `None` where unset.
#[derive(Clone, Debug)]
pub struct RunEnvironment {
    /// `LLAMA_SERVER_BIN`
    pub llama_server_bin: Option<String>,
    /// `LLAMA_CPP_DEVICES`
    pub devices: Option<String>,
    /// `LLAMA_CPP_GPU_DEVICES`
    pub gpu_devices: Option<String>,
    /// `LLAMA_CPP_REPORT_MACHINE_TYPE`
    pub report_machine_type: Option<String>,
    /// `LLAMA_CPP_REPORT_GPU_NAME`
    pub report_gpu_name: Option<String>,
    /// `LLAMA_CPP_BENCH_MODE`
    pub benchmark_mode: Option<String>,
    /// `LLAMA_CPP_MATRIX_IO_POINTS`
    pub io_points: Option<String>,
    /// `LLAMA_CPP_MATRIX_PROMPT_POINTS`
    pub prompt_points: Option<String>,
    /// `LLAMA_CPP_SLEEP_BETWEEN_CASES`
    pub sleep_between_cases: Option<String>,
    /// `LLAMA_CPP_WARMUP_COUNT`
    pub warmup_count: Option<String>,
    /// `LLAMA_CPP_MAX_BATCH_SIZE`
    pub max_batch_size: Option<String>,
    /// `LLAMA_CPP_GPU_LAYERS`
    pub gpu_layers: Option<String>,
}

/// The settings of a matrix run.
#[derive(Clone, Debug)]
pub struct MatrixSettings {
    pub llama_server_bin: String,
    pub model_path: String,
    pub model_name: String,
    pub port: u16,
    pub dtype: String,
    pub gpu_devices: String,
    pub report_model_name: String,
    pub report_precision: String,
    pub report_machine_type: String,
    pub report_gpu_name: Option<String>,
    pub benchmark_mode: String,
    pub ctx_strategy: String,
    pub progress: String,
    pub io_points: usize,
    pub prompt_points: usize,
    pub sleep_between_cases: u64,
    pub warmup_count: usize,
    pub max_batch_size: usize,
    pub gpu_layers: usize,
}

/// Why the settings of a matrix run could not be built.
#[derive(Clone, Copy, Debug, PartialEq, Eq, Structural)]
pub enum ConfigError {
    /// No model path was given.
    MissingModelPath,
    /// No model name was given.
    MissingModelName,
    /// The context strategy is neither `progressive` nor `max-first`.
    InvalidCtxStrategy,
    /// The progress display is neither `plain` nor `none`.
    InvalidProgress,
}

/// The text of an optional string.
pub open spec fn opt_text(o: Option<String>) -> Option<Seq<char>> {
    match o {
        Some(s) => Some(s@),
        None => None,
    }
}

/// An environment value that is set and not empty.
pub open spec fn set_value(o: Option<String>) -> Option<Seq<char>> {
    match o {
        Some(s) => if s@.len() > 0 { Some(s@) } else { None },
        None => None,
    }
}

/// The first of an option and a fallback that is there, else `default`.
pub open spec fn first_text(a: Option<Seq<char>>, b: Option<Seq<char>>, default: Seq<char>) -> Seq<char> {
    match a {
        Some(t) => t,
        None => match b {
            Some(t) => t,
            None => default,
        },
    }
}

/// A count from the command line, else from the environment where it
/// parses, else `default`.
pub open spec fn count_setting(arg: Option<usize>, env: Option<String>, default: usize) -> usize {
    match arg {
        Some(n) => n,
        None => match env {
            Some(t) => match parse_usize(t@) {
                Ok(n) => n,
                Err(_) => default,
            },
            None => default,
        },
    }
}

/// The strategies a run can take to choose server contexts.
pub open spec fn valid_ctx_strategy(s: Seq<char>) -> bool {
    s == "progressive"@ || s == "max-first"@
}

/// The progress displays a run can use.
pub open spec fn valid_progress(s: Seq<char>) -> bool {
    s == "plain"@ || s == "none"@
}

/// The error a set of options gives, if any, the context strategy and
/// progress display taken as `ctx_strategy` and `progress`: a missing model
/// path, then a missing model name, then a context strategy or progress
/// display that is not known.
pub open spec fn normalized_options_error(o: RunOptions, ctx_strategy: Seq<char>, progress: Seq<char>) -> Option<ConfigError> {
    if o.model_path is None {
        Some(ConfigError::MissingModelPath)
    } else if o.model_name is None {
        Some(ConfigError::MissingModelName)
    } else if !valid_ctx_strategy(ctx_strategy) {
        Some(ConfigError::InvalidCtxStrategy)
    } else if !valid_progress(progress) {
        Some(ConfigError::InvalidProgress)
    } else {
        None
    }
}

/// The error a set of options gives, if any, the context strategy and
/// progress display lowercased.
pub open spec fn options_error(o: RunOptions) -> Option<ConfigError> {
    normalized_options_error(o, lowered(o.ctx_strategy@), lowered(o.progress@))
}

/// The dtype a set of options gives.
pub open spec fn dtype_text(o: RunOptions) -> Seq<char> {
    first_text(opt_text(o.dtype), None, "q3_k_xl"@)
}

/// The settings a set of options and environment give, field by field
/// (where the options are complete and valid), with the context strategy,
/// the progress display and the default report precision given.
pub open spec fn normalized_settings_match(
    s: MatrixSettings,
    o: RunOptions,
    e: RunEnvironment,
    ctx_strategy: Seq<char>,
    progress: Seq<char>,
    precision: Seq<char>,
) -> bool {
    &&& s.llama_server_bin@ == first_text(opt_text(o.llama_server_bin), set_value(e.llama_server_bin), "llama-server"@)
    &&& Some(s.model_path@) == opt_text(o.model_path)
    &&& Some(s.model_name@) == opt_text(o.model_name)
    &&& s.port == match o.port { Some(p) => p, None => 18080u16 }
    &&& s.dtype@ == dtype_text(o)
    &&& s.gpu_devices@ == match opt_text(o.gpu_devices) {
        Some(t) => t,
        None => first_text(opt_text(e.devices), opt_text(e.gpu_devices), "all"@),
    }
    &&& s.report_model_name@ == first_text(opt_text(o.report_model_name), None, s.model_name@)
    &&& s.report_precision@ == match opt_text(o.report_precision) {
        Some(t) => t,
        None => precision,
    }
    &&& s.report_machine_type@ == first_text(opt_text(o.report_machine_type), set_value(e.report_machine_type), Seq::empty())
    &&& opt_text(s.report_gpu_name) == match opt_text(o.report_gpu_name) {
        Some(t) => Some(t),
        None => set_value(e.report_gpu_name),
    }
    &&& s.benchmark_mode@ == first_text(opt_text(o.benchmark_mode), set_value(e.benchmark_mode), "auto"@)
    &&& s.ctx_strategy@ == ctx_strategy
    &&& s.progress@ == progress
    &&& s.io_points == count_setting(o.io_points, e.io_points, 4)
    &&& s.prompt_points == count_setting(o.prompt_points, e.prompt_points, 3)
    &&& s.sleep_between_cases == match o.sleep_between_cases {
        Some(n) => n,
        None => match e.sleep_between_cases {
            Some(t) => match parse_u64(t@) {
                Ok(n) => n,
                Err(_) => 10u64,
            },
            None => 10u64,
        },
    }
    &&& s.warmup_count == count_setting(o.warmup_count, e.warmup_count, 5)
    &&& s.max_batch_size == count_setting(o.max_batch_size, e.max_batch_size, 2048)
    &&& s.gpu_layers == count_setting(o.gpu_layers, e.gpu_layers, 99)
}

/// The settings a set of options and environment give, field by field
/// (where the options are complete and valid): the context strategy and
/// progress display lowercased, the report precision by default the dtype
/// uppercased.
pub open spec fn settings_match(s: MatrixSettings, o: RunOptions, e: RunEnvironment) -> bool {
    normalized_settings_match(
        s,
        o,
        e,
        lowered(o.ctx_strategy@),
        lowered(o.progress@),
        uppered(dtype_text(o)),
    )
}

/// A copy of an optional string.
fn copy_opt(o: &Option<String>) -> (r: Option<String>)
    ensures
        opt_text(r) == opt_text(*o),
{
    match o {
        Some(s) => Some(s.clone()),
        None => None,
    }
}

/// An environment value when it is set and not empty.
fn env_value(o: &Option<String>) -> (r: Option<String>)
    ensures
        opt_text(r) == set_value(*o),
{
    match o {
        Some(s) => if s.unicode_len() > 0 { Some(s.clone()) } else { None },
        None => None,
    }
}

/// The first text that is there, else `default`.
fn first_of(a: Option<String>, b: Option<String>, default: &str) -> (r: String)
    ensures
        r@ == first_text(opt_text(a), opt_text(b), default@),
{
    match a {
        Some(t) => t,
        None => match b {
            Some(t) => t,
            None => default.to_owned(),
        },
    }
}

/// A count from the command line, else the environment, else `default`.
fn count_of(arg: Option<usize>, env: &Option<String>, default: usize) -> (n: usize)
    ensures
        n == count_setting(arg, *env, default),
{
    match arg {
        Some(n) => n,
        None => match env {
            Some(t) => {
                let v = chars_of(t.as_str());
                match parse_usize_chars(&v) {
                    Ok(n) => n,
                    Err(_) => default,
                }
            },
            None => default,
        },
    }
}

/// The settings of a matrix run, with the context strategy and progress
/// display given already lowercased and the report precision to use when
/// none is given: each other setting taken from the command line, else
/// from the environment, else from its default (see
/// `normalized_settings_match`); an error when the model path or name is
/// missing or the context strategy or progress display is unknown (see
/// `normalized_options_error`).
pub fn settings_from_normalized(
    options: &RunOptions,
    env: &RunEnvironment,
    ctx_strategy: String,
    progress: String,
    default_precision: String,
) -> (r: Result<MatrixSettings, ConfigError>)
    ensures
        match normalized_options_error(*options, ctx_strategy@, progress@) {
            Some(err) => r == Err::<MatrixSettings, ConfigError>(err),
            None => r matches Ok(s) && normalized_settings_match(
                s,
                *options,
                *env,
                ctx_strategy@,
                progress@,
                default_precision@,
            ),
        },
{
    let model_path = match &options.model_path {
        Some(p) => p.clone(),
        None => {
            return Err(ConfigError::MissingModelPath);
        },
    };
    let model_name = match &options.model_name {
        Some(n) => n.clone(),
        None => {
            return Err(ConfigError::MissingModelName);
        },
    };
    if !(text_eq(ctx_strategy.as_str(), "progressive") || text_eq(ctx_strategy.as_str(), "max-first")) {
        return Err(ConfigError::InvalidCtxStrategy);
    }
    if !(text_eq(progress.as_str(), "plain") || text_eq(progress.as_str(), "none")) {
        return Err(ConfigError::InvalidProgress);
    }
    let llama_server_bin = first_of(copy_opt(&options.llama_server_bin), env_value(&env.llama_server_bin), "llama-server");
    let port: u16 = match options.port {
        Some(p) => p,
        None => 18080,
    };
    let dtype = first_of(copy_opt(&options.dtype), None, "q3_k_xl");
    let gpu_devices = match &options.gpu_devices {
        Some(g) => g.clone(),
        None => first_of(copy_opt(&env.devices), copy_opt(&env.gpu_devices), "all"),
    };
    let report_model_name = match &options.report_model_name {
        Some(n) => n.clone(),
        None => model_name.clone(),
    };
    let report_precision = match &options.report_precision {
        Some(p) => p.clone(),
        None => default_precision,
    };
    let report_machine_type = first_of(copy_opt(&options.report_machine_type), env_value(&env.report_machine_type), "");
    let report_gpu_name = match &options.report_gpu_name {
        Some(n) => Some(n.clone()),
        None => env_value(&env.report_gpu_name),
    };
    let benchmark_mode = first_of(copy_opt(&options.benchmark_mode), env_value(&env.benchmark_mode), "auto");
    let sleep_between_cases: u64 = match options.sleep_between_cases {
        Some(n) => n,
        None => match &env.sleep_between_cases {
            Some(t) => match parse_u64_text(t.as_str()) {
                Ok(n) => n,
                Err(_) => 10,
            },
            None => 10,
        },
    };
    let out = MatrixSettings {
        llama_server_bin,
        model_path,
        model_name,
        port,
        dtype,
        gpu_devices,
        report_model_name,
        report_precision,
        report_machine_type,
        report_gpu_name,
        benchmark_mode,
        ctx_strategy,
        progress,
        io_points: count_of(options.io_points, &env.io_points, 4),
        prompt_points: count_of(options.prompt_points, &env.prompt_points, 3),
        sleep_between_cases,
        warmup_count: count_of(options.warmup_count, &env.warmup_count, 5),
        max_batch_size: count_of(options.max_batch_size, &env.max_batch_size, 2048),
        gpu_layers: count_of(options.gpu_layers, &env.gpu_layers, 99),
    };
    proof {
        reveal_strlit("");
    }
    assert(out.sleep_between_cases == match options.sleep_between_cases {
        Some(n) => n,
        None => match env.sleep_between_cases {
            Some(t) => match parse_u64(t@) {
                Ok(n) => n,
                Err(_) => 10u64,
            },
            None => 10u64,
        },
    });
    assert(out.report_machine_type@ == first_text(
        opt_text(options.report_machine_type),
        set_value(env.report_machine_type),
        Seq::empty(),
    ));
    Ok(out)
}

/// The settings of a matrix run: the context strategy and progress display
/// lowercased, the report precision by default the dtype uppercased, each
/// other setting taken from the command line, else from the environment,
/// else from its default (see `settings_match`); an error when the model
/// path or name is missing or the context strategy or progress display is
/// unknown (see `options_error`).
pub fn build_matrix_settings(options: &RunOptions, env: &RunEnvironment) -> (r: Result<MatrixSettings, ConfigError>)
    ensures
        match options_error(*options) {
            Some(err) => r == Err::<MatrixSettings, ConfigError>(err),
            None => r matches Ok(s) && settings_match(s, *options, *env),
        },
{
    let ctx_strategy = to_lowercase(options.ctx_strategy.as_str());
    let progress = to_lowercase(options.progress.as_str());
    let dtype = first_of(copy_opt(&options.dtype), None, "q3_k_xl");
    let default_precision = to_uppercase(dtype.as_str());
    settings_from_normalized(options, env, ctx_strategy, progress, default_precision)
}

/// Whatever is given on the command line is the setting: the model path
/// and name, the port, the dtype, the report fields, the benchmark mode and
/// every count; a setting not given there comes from the environment or its
/// default (the port 18080).
pub proof fn law_command_line_settings_win(
    s: MatrixSettings,
    o: RunOptions,
    e: RunEnvironment,
    ctx_strategy: Seq<char>,
    progress: Seq<char>,
    precision: Seq<char>,
)
    requires
        normalized_settings_match(s, o, e, ctx_strategy, progress, precision),
    ensures
        o.port matches Some(p) ==> s.port == p,
        o.port is None ==> s.port == 18080,
        o.model_path matches Some(m) ==> s.model_path@ == m@,
        o.model_name matches Some(m) ==> s.model_name@ == m@,
        o.dtype matches Some(d) ==> s.dtype@ == d@,
        o.llama_server_bin matches Some(b) ==> s.llama_server_bin@ == b@,
        o.gpu_devices matches Some(g) ==> s.gpu_devices@ == g@,
        o.report_model_name matches Some(m) ==> s.report_model_name@ == m@,
        o.report_model_name is None ==> s.report_model_name@ == s.model_name@,
        o.report_precision matches Some(p) ==> s.report_precision@ == p@,
        o.report_precision is None ==> s.report_precision@ == precision,
        o.report_machine_type matches Some(m) ==> s.report_machine_type@ == m@,
        o.report_gpu_name matches Some(g) ==> opt_text(s.report_gpu_name) == Some(g@),
        o.benchmark_mode matches Some(b) ==> s.benchmark_mode@ == b@,
        s.ctx_strategy@ == ctx_strategy,
        s.progress@ == progress,
        o.io_points matches Some(n) ==> s.io_points == n,
        o.prompt_points matches Some(n) ==> s.prompt_points == n,
        o.sleep_between_cases matches Some(n) ==> s.sleep_between_cases == n,
        o.warmup_count matches Some(n) ==> s.warmup_count == n,
        o.max_batch_size matches Some(n) ==> s.max_batch_size == n,
        o.gpu_layers matches Some(n) ==> s.gpu_layers == n,
{
}

} // verus!
