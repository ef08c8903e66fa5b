//! The benchmark side of a case: request seeds and prompts, the choice of
//! benchmark tool and its command line, the reading of a streamed
//! completion, and the tally of a built-in benchmark run.
use vstd::prelude::*;
use rand::{Rng, SeedableRng};
use crate::matrix::Case;
use crate::text::{
    chars_eq_str, chars_of, dec, decimal_string, extend_str, is_whitespace, is_ws, push_decimal, push_str_item,
    push_text, string_of, string_views, text_eq, trim, trim_chars,
};
use crate::text::{
    lines, lines_of, parse_i32, parse_i32_text, regex_find, regex_first_match,
    second_piece, second_piece_chars, views,
};

verus! {

// ---------------------------------------------------------------------
// Random numbers
// ---------------------------------------------------------------------

/// The first number in `0..high` that `StdRng` seeded with `seed` draws.
pub uninterp spec fn seeded_draw(seed: u64, high: i32) -> i32;

/// `StdRng::seed_from_u64(seed)` followed by one `Rng::gen_range(0..high)`.
/// `StdRng` is deterministic for the rand version in use, so the result is
/// named `seeded_draw` of the seed and the bound; beyond that only the
/// range that `gen_range` documents is claimed (it panics on an empty
/// range, which `requires` leaves out).
#[verifier::external_body]
fn seeded_draw_below(seed: u64, high: i32) -> (n: i32)
    requires
        0 < high,
    ensures
        n == seeded_draw(seed, high),
        0 <= n < high,
{
    rand::rngs::StdRng::seed_from_u64(seed).gen_range(0..high)
}

// ---------------------------------------------------------------------
// Seeds and prompts
// ---------------------------------------------------------------------

/// The number a request's seed is taken from.
pub open spec fn seed_value(case: Case, request_index: usize, salt: u64) -> int {
    case.parallel_size * 1_000_003 + case.num_prompts * 10_007 + case.input_len * 101
        + case.output_len * 17 + request_index + salt
}

/// The seed of the prompt of request `request_index` of `case`: the low 32
/// bits of `seed_value`.
pub fn stable_case_seed(case: &Case, request_index: usize, salt: u64) -> (seed: u64)
    requires
        seed_value(*case, request_index, salt) <= u64::MAX,
    ensures
        seed == seed_value(*case, request_index, salt) % 0x1_0000_0000,
{
    let p = case.parallel_size as u64;
    let n = case.num_prompts as u64;
    let i = case.input_len as u64;
    let o = case.output_len as u64;
    let r = request_index as u64;
    let value: u64 = p * 1_000_003 + n * 10_007 + i * 101 + o * 17 + r + salt;
    proof {
        assert(value & 0xFFFF_FFFF == value % 0x1_0000_0000) by (bit_vector);
    }
    value & 0xFFFF_FFFF
}

/// Whether the seed of request `request_index` of `case` can be computed
/// without overflow (see `stable_case_seed`).
pub fn seed_fits(case: &Case, request_index: usize, salt: u64) -> (r: bool)
    ensures
        r == (seed_value(*case, request_index, salt) <= u64::MAX),
{
    let p = case.parallel_size as u64;
    let n = case.num_prompts as u64;
    let i = case.input_len as u64;
    let o = case.output_len as u64;
    let r = request_index as u64;
    let a = match p.checked_mul(1_000_003) { Some(v) => v, None => { return false; } };
    let b = match n.checked_mul(10_007) { Some(v) => v, None => { return false; } };
    let c = match i.checked_mul(101) { Some(v) => v, None => { return false; } };
    let d = match o.checked_mul(17) { Some(v) => v, None => { return false; } };
    let s1 = match a.checked_add(b) { Some(v) => v, None => { return false; } };
    let s2 = match s1.checked_add(c) { Some(v) => v, None => { return false; } };
    let s3 = match s2.checked_add(d) { Some(v) => v, None => { return false; } };
    let s4 = match s3.checked_add(r) { Some(v) => v, None => { return false; } };
    match s4.checked_add(salt) {
        Some(_) => true,
        None => false,
    }
}

/// `piece` written `n` times.
pub open spec fn repeated(piece: Seq<char>, n: nat) -> Seq<char>
    decreases n,
{
    if n == 0 {
        Seq::empty()
    } else {
        repeated(piece, (n - 1) as nat) + piece
    }
}

/// The prompt built around the drawn `number`: ` request {number}`, then
/// ` a` once per input token (at least once).
pub open spec fn prompt_text(number: nat, input_len: usize) -> Seq<char> {
    " request "@ + dec(number) + repeated(" a"@, if input_len == 0 { 1 } else { input_len as nat })
}

/// The exclusive bound of the number a prompt carries.
pub const PROMPT_NUMBER_BOUND: i32 = 1_000_000;

/// The words a prompt opens with, the drawn number, then ` a` once per
/// input token (at least once).
fn prompt_after(head: &str, number: u32, input_len: usize) -> (p: String)
    ensures
        p@ == head@ + dec(number as nat) + repeated(" a"@, if input_len == 0 { 1 } else { input_len as nat }),
{
    let mut v: Vec<char> = Vec::new();
    extend_str(&mut v, head);
    push_decimal(&mut v, number as usize);
    let body: usize = if input_len == 0 { 1 } else { input_len };
    let ghost start = v@;
    let mut k: usize = 0;
    proof {
        assert(v@ =~= start + repeated(" a"@, 0));
    }
    while k < body
        invariant
            k <= body,
            v@ == start + repeated(" a"@, k as nat),
        decreases body - k,
    {
        v.push(' ');
        v.push('a');
        proof {
            reveal_strlit(" a");
            assert(repeated(" a"@, (k + 1) as nat) == repeated(" a"@, k as nat) + " a"@);
            assert(v@ =~= start + repeated(" a"@, (k + 1) as nat));
        }
        k += 1;
    }
    proof {
        assert(start =~= head@ + dec(number as nat));
    }
    string_of(&v)
}

/// The prompt for `input_len` tokens that carries `number`.
pub fn prompt_for(number: u32, input_len: usize) -> (p: String)
    ensures
        p@ == prompt_text(number as nat, input_len),
{
    prompt_after(" request ", number, input_len)
}

/// The prompt of a request whose seed is `seed`: it carries the first
/// number below the bound that a generator seeded with `seed` draws.
pub fn make_prompt(input_len: usize, seed: u64) -> (p: String)
    ensures
        p@ == prompt_text(seeded_draw(seed, PROMPT_NUMBER_BOUND) as nat, input_len),
        seeded_draw(seed, PROMPT_NUMBER_BOUND) < PROMPT_NUMBER_BOUND,
{
    let n = seeded_draw_below(seed, PROMPT_NUMBER_BOUND);
    prompt_for(n as u32, input_len)
}

/// The warm-up prompt built around the drawn `number`: ` warmup {number}`,
/// then ` a` once per input token (at least once). The word in place of
/// `request` is the salt that keeps warm-up prompts apart from measured ones.
pub open spec fn warmup_prompt_text(number: nat, input_len: usize) -> Seq<char> {
    " warmup "@ + dec(number) + repeated(" a"@, if input_len == 0 { 1 } else { input_len as nat })
}

/// The warm-up prompt of a request whose seed is `seed`.
pub fn make_warmup_prompt(input_len: usize, seed: u64) -> (p: String)
    ensures
        p@ == warmup_prompt_text(seeded_draw(seed, PROMPT_NUMBER_BOUND) as nat, input_len),
{
    let n = seeded_draw_below(seed, PROMPT_NUMBER_BOUND);
    prompt_after(" warmup ", n as u32, input_len)
}

/// No warm-up prompt equals a measured prompt, whatever numbers they carry
/// and whatever their lengths: they differ in their first word.
pub proof fn law_warmup_prompts_differ_from_measured(n: nat, m: nat, a: usize, b: usize)
    ensures
        warmup_prompt_text(n, a) != prompt_text(m, b),
{
    reveal_strlit(" warmup ");
    reveal_strlit(" request ");
    let w = warmup_prompt_text(n, a);
    let r = prompt_text(m, b);
    assert(w[1] == 'w');
    assert(r[1] == 'r');
}

// ---------------------------------------------------------------------
// Choice of benchmark tool
// ---------------------------------------------------------------------

/// The benchmark mode a run uses: an explicit mode as given; for `auto`,
/// `benchmark_serving` when the serving script is present, else `vllm_cli`
/// when the `vllm` command is on the path, else `builtin`.
pub open spec fn chosen_mode(mode: Seq<char>, serving_script_present: bool, vllm_on_path: bool) -> Seq<char> {
    if mode != "auto"@ {
        mode
    } else if serving_script_present {
        "benchmark_serving"@
    } else if vllm_on_path {
        "vllm_cli"@
    } else {
        "builtin"@
    }
}

/// The benchmark mode to use, given what the machine offers (whether
/// `benchmark_serving.py` is in the working directory and whether `vllm`
/// is on the path).
pub fn detect_benchmark_mode(mode: &str, serving_script_present: bool, vllm_on_path: bool) -> (m: String)
    ensures
        m@ == chosen_mode(mode@, serving_script_present, vllm_on_path),
{
    if !text_eq(mode, "auto") {
        return mode.to_owned();
    }
    if serving_script_present {
        "benchmark_serving".to_owned()
    } else if vllm_on_path {
        "vllm_cli".to_owned()
    } else {
        "builtin".to_owned()
    }
}

/// The benchmark tools a case can be run with.
#[derive(Clone, Copy, Debug, PartialEq, Eq, Structural)]
pub enum BenchmarkKind {
    /// Streamed completions sent by this tool itself.
    Builtin,
    /// The `benchmark_serving.py` script.
    BenchmarkServing,
    /// `vllm bench serve`.
    VllmCli,
}

/// The tool a benchmark mode names, if it names one.
pub open spec fn kind_of(mode: Seq<char>) -> Option<BenchmarkKind> {
    if mode == "builtin"@ {
        Some(BenchmarkKind::Builtin)
    } else if mode == "benchmark_serving"@ {
        Some(BenchmarkKind::BenchmarkServing)
    } else if mode == "vllm_cli"@ {
        Some(BenchmarkKind::VllmCli)
    } else {
        None
    }
}

/// The tool a benchmark mode names; `None` for an unknown mode.
pub fn benchmark_kind(mode: &str) -> (k: Option<BenchmarkKind>)
    ensures
        k == kind_of(mode@),
{
    if text_eq(mode, "builtin") {
        Some(BenchmarkKind::Builtin)
    } else if text_eq(mode, "benchmark_serving") {
        Some(BenchmarkKind::BenchmarkServing)
    } else if text_eq(mode, "vllm_cli") {
        Some(BenchmarkKind::VllmCli)
    } else {
        None
    }
}

/// The command line of an external benchmark tool for a case: the
/// serving script for `BenchmarkServing`, `vllm bench serve` otherwise,
/// with a random dataset of the case's size.
pub open spec fn external_args(
    kind: BenchmarkKind,
    host: Seq<char>,
    port: u16,
    model_path: Seq<char>,
    model_name: Seq<char>,
    case: Case,
) -> Seq<Seq<char>> {
    (if kind == BenchmarkKind::BenchmarkServing {
        seq!["python3"@, "./benchmark_serving.py"@]
    } else {
        seq!["vllm"@, "bench"@, "serve"@]
    }) + seq![
        "--backend"@, "llama.cpp"@,
        "--host"@, host,
        "--port"@, dec(port as nat),
        "--model"@, model_path,
        "--tokenizer"@, model_path,
        "--served-model-name"@, model_name,
        "--dataset-name"@, "random"@,
        "--num-prompts"@, dec(case.num_prompts as nat),
        "--random-input-len"@, dec(case.input_len as nat),
        "--random-output-len"@, dec(case.output_len as nat),
        "--ignore-eos"@,
    ]
}

/// The command line that runs an external benchmark tool on a case.
pub fn external_benchmark_command(
    kind: BenchmarkKind,
    host: &str,
    port: u16,
    model_path: &str,
    model_name: &str,
    case: &Case,
) -> (cmd: Vec<String>)
    ensures
        string_views(cmd@) == external_args(kind, host@, port, model_path@, model_name@, *case),
{
    let mut cmd: Vec<String> = Vec::new();
    if kind == BenchmarkKind::BenchmarkServing {
        push_str_item(&mut cmd, "python3");
        push_str_item(&mut cmd, "./benchmark_serving.py");
    } else {
        push_str_item(&mut cmd, "vllm");
        push_str_item(&mut cmd, "bench");
        push_str_item(&mut cmd, "serve");
    }
    let ghost head = string_views(cmd@);
    push_str_item(&mut cmd, "--backend");
    push_str_item(&mut cmd, "llama.cpp");
    push_str_item(&mut cmd, "--host");
    push_str_item(&mut cmd, host);
    push_str_item(&mut cmd, "--port");
    push_text(&mut cmd, decimal_string(port as usize));
    push_str_item(&mut cmd, "--model");
    push_str_item(&mut cmd, model_path);
    push_str_item(&mut cmd, "--tokenizer");
    push_str_item(&mut cmd, model_path);
    push_str_item(&mut cmd, "--served-model-name");
    push_str_item(&mut cmd, model_name);
    push_str_item(&mut cmd, "--dataset-name");
    push_str_item(&mut cmd, "random");
    push_str_item(&mut cmd, "--num-prompts");
    push_text(&mut cmd, decimal_string(case.num_prompts));
    push_str_item(&mut cmd, "--random-input-len");
    push_text(&mut cmd, decimal_string(case.input_len));
    push_str_item(&mut cmd, "--random-output-len");
    push_text(&mut cmd, decimal_string(case.output_len));
    push_str_item(&mut cmd, "--ignore-eos");
    proof {
        assert(string_views(cmd@) =~= external_args(kind, host@, port, model_path@, model_name@, *case));
    }
    cmd
}

// ---------------------------------------------------------------------
// Streamed completions
// ---------------------------------------------------------------------

/// What the fields of one streamed completion chunk hold, read as JSON:
/// `usage.completion_tokens` and `usage.prompt_tokens` where they are
/// unsigned integers, and the `text` of the first of `choices` where it is
/// a string (all `None` for a chunk that is not JSON).
pub uninterp spec fn completion_chunk(chunk: Seq<char>) -> (Option<u64>, Option<u64>, Option<Seq<char>>);

/// The fields of a completion chunk, read with `serde_json::from_str` into
/// a `serde_json::Value` and looked up with `get`, `as_u64`, `as_array`
/// and `as_str`. The result is named `completion_chunk` of the chunk's text;
/// nothing more is claimed of JSON parsing.
#[verifier::external_body]
fn chunk_fields(chunk: &str) -> (r: (Option<u64>, Option<u64>, Option<String>))
    ensures
        (r.0, r.1, match r.2 { Some(t) => Some(t@), None => None }) == completion_chunk(chunk@),
{
    let parsed: Option<serde_json::Value> = serde_json::from_str(chunk).ok();
    let usage = parsed.as_ref().and_then(|p| p.get("usage"));
    let completion = usage.and_then(|u| u.get("completion_tokens")).and_then(|v| v.as_u64());
    let prompt = usage.and_then(|u| u.get("prompt_tokens")).and_then(|v| v.as_u64());
    let choices = parsed.as_ref().and_then(|p| p.get("choices")).and_then(|c| c.as_array());
    let first = choices.and_then(|a| a.first());
    let text = first.and_then(|c| c.get("text")).and_then(|t| t.as_str()).map(|t| t.to_string());
    (completion, prompt, text)
}

/// How many output tokens a chunk of generated text counts for: its
/// non-whitespace characters, and at least one.
pub open spec fn text_tokens(text: Seq<char>) -> nat {
    let n = non_ws_count(text);
    if n == 0 { 1 } else { n }
}

/// The number of non-whitespace characters of `s`.
pub open spec fn non_ws_count(s: Seq<char>) -> nat
    decreases s.len(),
{
    if s.len() == 0 {
        0
    } else {
        non_ws_count(s.drop_last()) + if is_ws(s.last()) { 0nat } else { 1nat }
    }
}

proof fn lemma_non_ws_count_bound(s: Seq<char>)
    ensures
        non_ws_count(s) <= s.len(),
    decreases s.len(),
{
    if s.len() > 0 {
        lemma_non_ws_count_bound(s.drop_last());
    }
}

/// The number of output tokens a chunk of generated text counts for.
pub fn count_text_tokens(text: &str) -> (n: usize)
    ensures
        n == text_tokens(text@),
{
    let v = chars_of(text);
    let mut count: usize = 0;
    let mut i: usize = 0;
    while i < v.len()
        invariant
            i <= v@.len(),
            count == non_ws_count(v@.take(i as int)),
            count <= i,
        decreases v.len() - i,
    {
        proof {
            assert(v@.take(i + 1).drop_last() =~= v@.take(i as int));
        }
        if !is_whitespace(v[i]) {
            count += 1;
        }
        i += 1;
    }
    proof {
        assert(v@.take(v@.len() as int) =~= v@);
    }
    if count == 0 { 1 } else { count }
}

/// What a streamed completion has delivered so far.
pub struct StreamTally {
    /// Whether a chunk with generated text has arrived.
    pub first_token_seen: bool,
    /// The output tokens counted from the generated text.
    pub output_chunks: usize,
    /// The completion token count the server last reported.
    pub completion_tokens: Option<u64>,
    /// The prompt token count the server last reported.
    pub prompt_tokens: Option<u64>,
}

/// The tally after one more chunk whose fields are `fields`.
pub open spec fn tally_after(t: StreamTally, fields: (Option<u64>, Option<u64>, Option<Seq<char>>)) -> StreamTally {
    StreamTally {
        first_token_seen: t.first_token_seen || fields.2 is Some,
        output_chunks: match fields.2 {
            Some(text) => (t.output_chunks + text_tokens(text)) as usize,
            None => t.output_chunks,
        },
        completion_tokens: match fields.0 {
            Some(v) => Some(v),
            None => t.completion_tokens,
        },
        prompt_tokens: match fields.1 {
            Some(v) => Some(v),
            None => t.prompt_tokens,
        },
    }
}

/// The counts of a request whose stream has ended.
#[derive(Clone, Copy, Debug, PartialEq, Eq, Structural)]
pub struct StreamCounts {
    pub prompt_tokens: usize,
    pub output_tokens: usize,
    pub prompt_from_usage: bool,
    pub output_from_usage: bool,
}

/// The counts a finished stream gives: `None` when no text arrived; else
/// the server's reported counts where it reported them, the prompt length
/// asked for and the counted output otherwise.
pub open spec fn stream_counts(t: StreamTally, prompt_len: usize) -> Option<StreamCounts> {
    if !t.first_token_seen {
        None
    } else {
        Some(StreamCounts {
            prompt_tokens: match t.prompt_tokens {
                Some(v) => v as usize,
                None => prompt_len,
            },
            output_tokens: match t.completion_tokens {
                Some(v) => v as usize,
                None => t.output_chunks,
            },
            prompt_from_usage: t.prompt_tokens is Some,
            output_from_usage: t.completion_tokens is Some,
        })
    }
}

impl StreamTally {
    /// A tally before any chunk.
    pub fn new() -> (t: StreamTally)
        ensures
            t == (StreamTally {
                first_token_seen: false,
                output_chunks: 0,
                completion_tokens: None,
                prompt_tokens: None,
            }),
    {
        StreamTally { first_token_seen: false, output_chunks: 0, completion_tokens: None, prompt_tokens: None }
    }

    /// Takes in the fields of one chunk.
    pub fn add_fields(&mut self, completion_tokens: Option<u64>, prompt_tokens: Option<u64>, text: Option<&str>)
        requires
            match text {
                Some(t) => old(self).output_chunks + text_tokens(t@) <= usize::MAX,
                None => true,
            },
        ensures
            *final(self) == tally_after(
                *old(self),
                (completion_tokens, prompt_tokens, match text { Some(t) => Some(t@), None => None }),
            ),
    {
        if let Some(v) = completion_tokens {
            self.completion_tokens = Some(v);
        }
        if let Some(v) = prompt_tokens {
            self.prompt_tokens = Some(v);
        }
        if let Some(t) = text {
            let n = count_text_tokens(t);
            self.first_token_seen = true;
            self.output_chunks = self.output_chunks + n;
        }
    }

    /// Takes in one event of the stream, `data` being its payload:
    /// `Some(true)` when the stream says it is done (`[DONE]`, spaces around
    /// it aside), with the tally unchanged; `Some(false)` once the chunk is
    /// read; `None`, with the tally unchanged, when its text would take the
    /// token count past `usize::MAX`.
    pub fn observe(&mut self, data: &str) -> (r: Option<bool>)
        ensures
            r == Some(true) <==> trim(data@) == "[DONE]"@,
            r != Some(false) ==> *final(self) == *old(self),
            r is None <==> trim(data@) != "[DONE]"@ && match completion_chunk(trim(data@)).2 {
                Some(t) => old(self).output_chunks + text_tokens(t) > usize::MAX,
                None => false,
            },
            r == Some(false) ==> *final(self) == tally_after(*old(self), completion_chunk(trim(data@))),
    {
        let dv = chars_of(data);
        let tv = trim_chars(&dv);
        if chars_eq_str(&tv, "[DONE]") {
            return Some(true);
        }
        let chunk = string_of(&tv);
        let (c, p, t) = chunk_fields(chunk.as_str());
        match t {
            Some(s) => {
                let n = count_text_tokens(s.as_str());
                if self.output_chunks > usize::MAX - n {
                    return None;
                }
                self.add_fields(c, p, Some(s.as_str()));
            },
            None => self.add_fields(c, p, None),
        }
        Some(false)
    }

    /// The counts of the request once its stream has ended.
    pub fn finish(&self, prompt_len: usize) -> (r: Option<StreamCounts>)
        ensures
            r == stream_counts(*self, prompt_len),
    {
        if !self.first_token_seen {
            return None;
        }
        Some(StreamCounts {
            prompt_tokens: match self.prompt_tokens {
                Some(v) => v as usize,
                None => prompt_len,
            },
            output_tokens: match self.completion_tokens {
                Some(v) => v as usize,
                None => self.output_chunks,
            },
            prompt_from_usage: self.prompt_tokens.is_some(),
            output_from_usage: self.completion_tokens.is_some(),
        })
    }
}

// ---------------------------------------------------------------------
// Tally of a built-in run
// ---------------------------------------------------------------------

/// What the tally of a built-in run reads of one request.
#[derive(Clone, Debug)]
pub struct RequestRecord {
    pub success: bool,
    pub prompt_tokens: usize,
    pub output_tokens: usize,
    pub prompt_from_usage: bool,
    pub output_from_usage: bool,
    pub error: String,
}

/// The number of successful requests.
pub open spec fn successes(rs: Seq<RequestRecord>) -> nat
    decreases rs.len(),
{
    if rs.len() == 0 {
        0
    } else {
        successes(rs.drop_last()) + if rs.last().success { 1nat } else { 0nat }
    }
}

/// The prompt tokens of the successful requests, summed.
pub open spec fn prompt_total(rs: Seq<RequestRecord>) -> nat
    decreases rs.len(),
{
    if rs.len() == 0 {
        0
    } else {
        prompt_total(rs.drop_last()) + if rs.last().success { rs.last().prompt_tokens as nat } else { 0nat }
    }
}

/// The output tokens of the successful requests, summed.
pub open spec fn output_total(rs: Seq<RequestRecord>) -> nat
    decreases rs.len(),
{
    if rs.len() == 0 {
        0
    } else {
        output_total(rs.drop_last()) + if rs.last().success { rs.last().output_tokens as nat } else { 0nat }
    }
}

/// The failed requests, in order.
pub open spec fn failures(rs: Seq<RequestRecord>) -> Seq<RequestRecord>
    decreases rs.len(),
{
    if rs.len() == 0 {
        Seq::empty()
    } else if rs.last().success {
        failures(rs.drop_last())
    } else {
        failures(rs.drop_last()).push(rs.last())
    }
}

/// How many failures a tally lists.
pub const LISTED_FAILURES: usize = 10;

/// The line that lists failure number `k`.
pub open spec fn failure_line(k: nat, error: Seq<char>) -> Seq<char> {
    "Error "@ + dec(k) + ": "@ + error
}

/// The lines listing the first failures (at most `LISTED_FAILURES`).
pub open spec fn failure_lines(rs: Seq<RequestRecord>) -> Seq<Seq<char>> {
    let f = failures(rs);
    let n = if f.len() < LISTED_FAILURES { f.len() } else { LISTED_FAILURES as nat };
    Seq::new(n, |k: int| failure_line(k as nat, f[k].error@))
}

/// Where the token counts of the successful requests came from: `usage`
/// when all were reported by the server, `mixed` when some were, the
/// fallback word when none were (or nothing succeeded). `prompt` picks the
/// prompt counts, else the output counts.
pub open spec fn source_label(rs: Seq<RequestRecord>, prompt: bool, fallback: Seq<char>) -> Seq<char> {
    let reported = |r: RequestRecord| if prompt { r.prompt_from_usage } else { r.output_from_usage };
    let some_reported = exists|i: int| 0 <= i < rs.len() && rs[i].success && reported(rs[i]);
    let some_not = exists|i: int| 0 <= i < rs.len() && rs[i].success && !reported(rs[i]);
    if some_reported && some_not {
        "mixed"@
    } else if some_reported {
        "usage"@
    } else {
        fallback
    }
}

/// The integer side of a built-in run's result.
pub struct RunTally {
    pub successful: usize,
    pub failed: usize,
    pub total_input: usize,
    pub total_output: usize,
    pub prompt_source: String,
    pub output_source: String,
    pub failure_lines: Vec<String>,
}

proof fn lemma_totals_grow(rs: Seq<RequestRecord>, i: int)
    requires
        0 <= i <= rs.len(),
    ensures
        prompt_total(rs.take(i)) <= prompt_total(rs),
        output_total(rs.take(i)) <= output_total(rs),
        successes(rs.take(i)) <= successes(rs),
        successes(rs) <= rs.len(),
    decreases rs.len(),
{
    if rs.len() > 0 {
        if i == rs.len() {
            assert(rs.take(i) =~= rs);
            lemma_totals_grow(rs.drop_last(), i - 1);
        } else {
            assert(rs.drop_last().take(i) =~= rs.take(i));
            lemma_totals_grow(rs.drop_last(), i);
        }
    }
}

proof fn lemma_failures_len(rs: Seq<RequestRecord>)
    ensures
        failures(rs).len() + successes(rs) == rs.len(),
    decreases rs.len(),
{
    if rs.len() > 0 {
        lemma_failures_len(rs.drop_last());
    }
}

/// Counts, totals, token sources and listed failures of a built-in run.
pub fn tally_requests(results: &[RequestRecord]) -> (t: RunTally)
    requires
        prompt_total(results@) <= usize::MAX,
        output_total(results@) <= usize::MAX,
    ensures
        t.successful == successes(results@),
        t.failed == failures(results@).len(),
        t.total_input == prompt_total(results@),
        t.total_output == output_total(results@),
        t.prompt_source@ == source_label(results@, true, "estimated"@),
        t.output_source@ == source_label(results@, false, "chunk_count"@),
        string_views(t.failure_lines@) == failure_lines(results@),
{
    let ghost rs = results@;
    let mut successful: usize = 0;
    let mut failed: usize = 0;
    let mut total_input: usize = 0;
    let mut total_output: usize = 0;
    let mut prompt_usage = false;
    let mut prompt_other = false;
    let mut output_usage = false;
    let mut output_other = false;
    let mut lines: Vec<String> = Vec::new();
    let mut i: usize = 0;
    proof {
        lemma_totals_grow(rs, rs.len() as int);
    }
    while i < results.len()
        invariant
            rs == results@,
            i <= rs.len(),
            prompt_total(rs) <= usize::MAX,
            output_total(rs) <= usize::MAX,
            successes(rs) <= rs.len(),
            successful == successes(rs.take(i as int)),
            failed == failures(rs.take(i as int)).len(),
            total_input == prompt_total(rs.take(i as int)),
            total_output == output_total(rs.take(i as int)),
            prompt_usage == exists|k: int| 0 <= k < i && rs[k].success && rs[k].prompt_from_usage,
            prompt_other == exists|k: int| 0 <= k < i && rs[k].success && !rs[k].prompt_from_usage,
            output_usage == exists|k: int| 0 <= k < i && rs[k].success && rs[k].output_from_usage,
            output_other == exists|k: int| 0 <= k < i && rs[k].success && !rs[k].output_from_usage,
            string_views(lines@) == failure_lines(rs.take(i as int)),
        decreases rs.len() - i,
    {
        let ghost prev = rs.take(i as int);
        let ghost next = rs.take(i + 1);
        proof {
            assert(next.drop_last() =~= prev);
            assert(next.last() == rs[i as int]);
            lemma_totals_grow(rs, i + 1);
            lemma_failures_len(prev);
        }
        let r = &results[i];
        if r.success {
            successful += 1;
            total_input += r.prompt_tokens;
            total_output += r.output_tokens;
            if r.prompt_from_usage { prompt_usage = true; } else { prompt_other = true; }
            if r.output_from_usage { output_usage = true; } else { output_other = true; }
            proof {
                assert(failure_lines(next) =~= failure_lines(prev));
            }
        } else {
            if failed < LISTED_FAILURES {
                let mut v: Vec<char> = Vec::new();
                extend_str(&mut v, "Error ");
                push_decimal(&mut v, failed);
                extend_str(&mut v, ": ");
                extend_str(&mut v, r.error.as_str());
                let ghost before = string_views(lines@);
                push_text(&mut lines, string_of(&v));
                proof {
                    assert(v@ =~= failure_line(failed as nat, r.error@));
                    assert(failures(next) =~= failures(prev).push(rs[i as int]));
                    assert(failure_lines(next) =~= failure_lines(prev).push(failure_line(failed as nat, r.error@)));
                }
            } else {
                proof {
                    assert(failures(next) =~= failures(prev).push(rs[i as int]));
                    assert(failure_lines(next) =~= failure_lines(prev));
                }
            }
            failed += 1;
        }
        proof {
            if prompt_usage {
                assert(exists|k: int| 0 <= k < i + 1 && rs[k].success && rs[k].prompt_from_usage);
            }
        }
        i += 1;
    }
    proof {
        assert(rs.take(rs.len() as int) =~= rs);
    }
    let prompt_source = if prompt_usage && prompt_other {
        "mixed".to_owned()
    } else if prompt_usage {
        "usage".to_owned()
    } else {
        "estimated".to_owned()
    };
    let output_source = if output_usage && output_other {
        "mixed".to_owned()
    } else if output_usage {
        "usage".to_owned()
    } else {
        "chunk_count".to_owned()
    };
    RunTally {
        successful,
        failed,
        total_input,
        total_output,
        prompt_source,
        output_source,
        failure_lines: lines,
    }
}

/// Every request of a built-in run is counted once: as a success or as a
/// failure.
pub proof fn law_requests_are_successes_or_failures(results: Seq<RequestRecord>)
    ensures
        successes(results) + failures(results).len() == results.len(),
{
    lemma_failures_len(results);
}

/// Seeds of different requests of a case differ while their values stay
/// below 2^32, so the requests of a case get different prompts seeds.
pub proof fn law_request_seeds_differ(case: Case, i: usize, j: usize, salt: u64)
    requires
        i != j,
        seed_value(case, i, salt) < 0x1_0000_0000,
        seed_value(case, j, salt) < 0x1_0000_0000,
    ensures
        seed_value(case, i, salt) % 0x1_0000_0000 != seed_value(case, j, salt) % 0x1_0000_0000,
{
}

/// The salt of warm-up requests, so that a warm-up prompt does not carry
/// the seed of a measured request of the same case.
pub const WARMUP_SALT: u64 = 0x8000_0000;

proof fn lemma_mod_differs(a: int, b: int, m: int)
    requires
        m > 0,
        a >= 0,
        b >= 0,
        0 < a - b < m,
    ensures
        a % m != b % m,
{
    vstd::arithmetic::div_mod::lemma_fundamental_div_mod(a, m);
    vstd::arithmetic::div_mod::lemma_fundamental_div_mod(b, m);
    if a % m == b % m {
        assert(a - b == m * (a / m - b / m)) by (nonlinear_arith)
            requires
                a == m * (a / m) + a % m,
                b == m * (b / m) + b % m,
                a % m == b % m,
        ;
        assert(false) by (nonlinear_arith)
            requires
                a - b == m * (a / m - b / m),
                0 < a - b < m,
                m > 0,
        ;
    }
}

/// The seed of warm-up request `request_index` of `case`: the request's
/// seed with `WARMUP_SALT` added. While request indexes stay below the
/// salt, it differs from the seed of every measured request of the case.
pub fn warmup_seed(case: &Case, request_index: usize) -> (seed: u64)
    requires
        seed_value(*case, request_index, WARMUP_SALT) <= u64::MAX,
    ensures
        seed == seed_value(*case, request_index, WARMUP_SALT) % 0x1_0000_0000,
        request_index < WARMUP_SALT ==> forall|j: usize|
            j < WARMUP_SALT ==> seed != #[trigger] seed_value(*case, j, 0) % 0x1_0000_0000,
{
    let seed = stable_case_seed(case, request_index, WARMUP_SALT);
    proof {
        if request_index < WARMUP_SALT {
            assert forall|j: usize| j < WARMUP_SALT implies seed != #[trigger] seed_value(*case, j, 0) % 0x1_0000_0000 by {
                let a = seed_value(*case, request_index, WARMUP_SALT);
                let b = seed_value(*case, j, 0);
                lemma_mod_differs(a, b, 0x1_0000_0000);
            }
        }
    }
    seed
}

/// Whether the seed of warm-up request `request_index` of `case` can be
/// computed without overflow (see `warmup_seed`).
pub fn warmup_seed_fits(case: &Case, request_index: usize) -> (r: bool)
    ensures
        r == (seed_value(*case, request_index, WARMUP_SALT) <= u64::MAX),
{
    seed_fits(case, request_index, WARMUP_SALT)
}

/// A warm-up request carries a seed that no measured request of the case
/// it was built from carries (for request indexes below the salt): the
/// seeds depend on the case's numbers only, which a warm-up case copies.
pub proof fn law_warmup_seeds_are_salted(warm: Case, measured: Case, i: usize, j: usize)
    requires
        warm.parallel_size == measured.parallel_size,
        warm.num_prompts == measured.num_prompts,
        warm.input_len == measured.input_len,
        warm.output_len == measured.output_len,
        i < WARMUP_SALT,
        j < WARMUP_SALT,
    ensures
        seed_value(warm, i, WARMUP_SALT) % 0x1_0000_0000 != seed_value(measured, j, 0) % 0x1_0000_0000,
{
    lemma_mod_differs(seed_value(warm, i, WARMUP_SALT), seed_value(measured, j, 0), 0x1_0000_0000);
}

// ---------------------------------------------------------------------
// Counts and token sources of a benchmark report
// ---------------------------------------------------------------------

/// The pattern of a number in a line of a benchmark report.
pub const NUMBER_PATTERN: &'static str = r"[-+]?(?:\d+(?:\.\d*)?|\.\d+)";

/// The count a number search gives: the number found, read as an `i32` and
/// cast to `usize` (0 when it is no `i32`); `None` when no number was
/// found or the pattern did not compile.
pub open spec fn count_from_match(found: Option<Option<Seq<char>>>) -> Option<usize> {
    match found {
        Some(Some(m)) => Some(
            match parse_i32(m) {
                Some(v) => v as usize,
                None => 0usize,
            },
        ),
        _ => None,
    }
}

/// The count a report line gives after `label`: that of the first number
/// that follows the label; `None` when the line lacks the label or no
/// number follows it.
pub open spec fn count_after(line: Seq<char>, label: Seq<char>) -> Option<usize> {
    match second_piece(line, label) {
        None => None,
        Some(p) => count_from_match(regex_first_match(NUMBER_PATTERN@, p)),
    }
}

/// The count a number search gives (see `count_from_match`), from what the
/// search returned.
pub fn count_of_match(found: Option<Option<String>>) -> (r: Option<usize>)
    ensures
        r == count_from_match(
            match found {
                Some(Some(m)) => Some(Some(m@)),
                Some(None) => Some(None::<Seq<char>>),
                None => None::<Option<Seq<char>>>,
            },
        ),
{
    match found {
        Some(Some(m)) => Some(
            match parse_i32_text(m.as_str()) {
                Some(v) => v as usize,
                None => 0,
            },
        ),
        _ => None,
    }
}

/// The count given by the last of `ls` that gives one; 0 when none does.
pub open spec fn last_count(ls: Seq<Seq<char>>, label: Seq<char>) -> usize
    decreases ls.len(),
{
    if ls.len() == 0 {
        0
    } else {
        match count_after(ls.last(), label) {
            Some(c) => c,
            None => last_count(ls.drop_last(), label),
        }
    }
}

/// The trimmed text after `label` on the last of `ls` that holds it; empty
/// when none does.
pub open spec fn last_source(ls: Seq<Seq<char>>, label: Seq<char>) -> Seq<char>
    decreases ls.len(),
{
    if ls.len() == 0 {
        Seq::empty()
    } else {
        match second_piece(ls.last(), label) {
            Some(p) => trim(p),
            None => last_source(ls.drop_last(), label),
        }
    }
}

/// A token count source as a report states it, `external` when it states
/// none.
pub open spec fn stated_source(ls: Seq<Seq<char>>, label: Seq<char>) -> Seq<char> {
    let s = last_source(ls, label);
    if s.len() == 0 {
        "external"@
    } else {
        s
    }
}

/// The request counts and token count sources a benchmark report gives.
pub struct ReportCounts {
    pub successful_requests: usize,
    pub failed_requests: usize,
    pub prompt_token_source: String,
    pub output_token_source: String,
}

fn count_in_line(line: &Vec<char>, label: &Vec<char>) -> (r: Option<usize>)
    requires
        label.len() > 0,
    ensures
        r == count_after(line@, label@),
{
    match second_piece_chars(line, label) {
        None => None,
        Some(p) => {
            let text = string_of(&p);
            count_of_match(regex_find(NUMBER_PATTERN, text.as_str()))
        },
    }
}

fn count_in_lines(ls: &Vec<Vec<char>>, label: &Vec<char>) -> (n: usize)
    requires
        label.len() > 0,
    ensures
        n == last_count(views(ls@), label@),
{
    let mut cur: usize = 0;
    let mut i: usize = 0;
    proof {
        assert(views(ls@).take(0) =~= Seq::<Seq<char>>::empty());
    }
    while i < ls.len()
        invariant
            i <= ls.len(),
            label.len() > 0,
            cur == last_count(views(ls@).take(i as int), label@),
        decreases ls.len() - i,
    {
        proof {
            assert(views(ls@).take(i + 1).drop_last() =~= views(ls@).take(i as int));
            assert(views(ls@).take(i + 1).last() == ls@[i as int]@);
        }
        match count_in_line(&ls[i], label) {
            Some(c) => {
                cur = c;
            },
            None => {},
        }
        i += 1;
    }
    proof {
        assert(views(ls@).take(ls.len() as int) =~= views(ls@));
    }
    cur
}

fn source_in_lines(ls: &Vec<Vec<char>>, label: &Vec<char>) -> (s: String)
    requires
        label.len() > 0,
    ensures
        s@ == stated_source(views(ls@), label@),
{
    let mut cur: Vec<char> = Vec::new();
    let mut i: usize = 0;
    proof {
        assert(views(ls@).take(0) =~= Seq::<Seq<char>>::empty());
    }
    while i < ls.len()
        invariant
            i <= ls.len(),
            label.len() > 0,
            cur@ == last_source(views(ls@).take(i as int), label@),
        decreases ls.len() - i,
    {
        proof {
            assert(views(ls@).take(i + 1).drop_last() =~= views(ls@).take(i as int));
            assert(views(ls@).take(i + 1).last() == ls@[i as int]@);
        }
        match second_piece_chars(&ls[i], label) {
            Some(p) => {
                cur = trim_chars(&p);
            },
            None => {},
        }
        i += 1;
    }
    proof {
        assert(views(ls@).take(ls.len() as int) =~= views(ls@));
    }
    if cur.len() == 0 {
        "external".to_string()
    } else {
        string_of(&cur)
    }
}

/// The request counts and token count sources of a benchmark report: for
/// each, what the last line that states it says.
pub fn read_report_counts(output: &str) -> (c: ReportCounts)
    ensures
        c.successful_requests == last_count(lines(output@), "Successful requests:"@),
        c.failed_requests == last_count(lines(output@), "Failed requests:"@),
        c.prompt_token_source@ == stated_source(lines(output@), "Prompt token count source:"@),
        c.output_token_source@ == stated_source(lines(output@), "Output token count source:"@),
{
    let ls = lines_of(&chars_of(output));
    proof {
        reveal_strlit("Successful requests:");
        reveal_strlit("Failed requests:");
        reveal_strlit("Prompt token count source:");
        reveal_strlit("Output token count source:");
    }
    let successful_requests = count_in_lines(&ls, &chars_of("Successful requests:"));
    let failed_requests = count_in_lines(&ls, &chars_of("Failed requests:"));
    let prompt_token_source = source_in_lines(&ls, &chars_of("Prompt token count source:"));
    let output_token_source = source_in_lines(&ls, &chars_of("Output token count source:"));
    ReportCounts { successful_requests, failed_requests, prompt_token_source, output_token_source }
}

/// The text of the first number that follows `label` on a report line;
/// `None` when the line lacks the label or no number follows it.
pub open spec fn number_after(line: Seq<char>, label: Seq<char>) -> Option<Seq<char>> {
    match second_piece(line, label) {
        None => None,
        Some(p) => match regex_first_match(NUMBER_PATTERN@, p) {
            Some(Some(m)) => Some(m),
            _ => None,
        },
    }
}

/// The number text given by the last of `ls` that gives one after `label`.
pub open spec fn last_number(ls: Seq<Seq<char>>, label: Seq<char>) -> Option<Seq<char>>
    decreases ls.len(),
{
    if ls.len() == 0 {
        None
    } else {
        match number_after(ls.last(), label) {
            Some(m) => Some(m),
            None => last_number(ls.drop_last(), label),
        }
    }
}

/// The text of the number a benchmark report gives after `label`: that of
/// the last line that gives one (the figures are read from it as
/// floating-point numbers by the caller).
pub fn report_number_text(output: &str, label: &str) -> (r: Option<String>)
    requires
        label@.len() > 0,
    ensures
        match r {
            Some(t) => last_number(lines(output@), label@) == Some(t@),
            None => last_number(lines(output@), label@) == None::<Seq<char>>,
        },
{
    let ls = lines_of(&chars_of(output));
    let lab = chars_of(label);
    let mut cur: Option<String> = None;
    let mut i: usize = 0;
    proof {
        assert(views(ls@).take(0) =~= Seq::<Seq<char>>::empty());
    }
    while i < ls.len()
        invariant
            i <= ls.len(),
            lab@ == label@,
            lab@.len() > 0,
            views(ls@) == lines(output@),
            match cur {
                Some(t) => last_number(views(ls@).take(i as int), label@) == Some(t@),
                None => last_number(views(ls@).take(i as int), label@) == None::<Seq<char>>,
            },
        decreases ls.len() - i,
    {
        proof {
            assert(views(ls@).take(i + 1).drop_last() =~= views(ls@).take(i as int));
            assert(views(ls@).take(i + 1).last() == ls@[i as int]@);
        }
        match second_piece_chars(&ls[i], &lab) {
            Some(p) => {
                let text = string_of(&p);
                match regex_find(NUMBER_PATTERN, text.as_str()) {
                    Some(Some(m)) => {
                        cur = Some(m);
                    },
                    _ => {},
                }
            },
            None => {},
        }
        i += 1;
    }
    proof {
        assert(views(ls@).take(ls.len() as int) =~= views(ls@));
    }
    cur
}

/// Whether request `r` had the count that `prompt` picks reported by the
/// server.
pub open spec fn count_reported(r: RequestRecord, prompt: bool) -> bool {
    if prompt {
        r.prompt_from_usage
    } else {
        r.output_from_usage
    }
}

/// A token count source names one source whenever the successful requests
/// agree: `usage` when the server reported every count, the fallback when
/// it reported none (or nothing succeeded); it is `mixed` exactly when some
/// successful request had its count reported and another did not.
pub proof fn law_token_source_is_single_when_requests_agree(
    rs: Seq<RequestRecord>,
    prompt: bool,
    fallback: Seq<char>,
)
    requires
        fallback != "mixed"@,
    ensures
        (forall|i: int| 0 <= i < rs.len() && rs[i].success ==> !count_reported(rs[i], prompt))
            ==> source_label(rs, prompt, fallback) == fallback,
        (forall|i: int| 0 <= i < rs.len() && rs[i].success ==> count_reported(rs[i], prompt))
            && (exists|j: int| 0 <= j < rs.len() && rs[j].success) ==> source_label(rs, prompt, fallback)
            == "usage"@,
        source_label(rs, prompt, fallback) == "mixed"@ <==> ((exists|i: int|
            0 <= i < rs.len() && rs[i].success && count_reported(rs[i], prompt)) && (exists|j: int|
            0 <= j < rs.len() && rs[j].success && !count_reported(rs[j], prompt))),
{
    reveal_strlit("mixed");
    reveal_strlit("usage");
    assert("usage"@ != "mixed"@) by {
        assert("usage"@[0] != "mixed"@[0]);
    }
    if (forall|i: int| 0 <= i < rs.len() && rs[i].success ==> count_reported(rs[i], prompt))
        && (exists|j: int| 0 <= j < rs.len() && rs[j].success) {
        let j = choose|j: int| 0 <= j < rs.len() && rs[j].success;
        assert(count_reported(rs[j], prompt));
    }
}

/// One more request changes a tally by itself alone: a successful one adds
/// one success and its token counts, a failed one adds only itself to the
/// failures, whatever came before.
pub proof fn law_each_request_counts_once(rs: Seq<RequestRecord>, r: RequestRecord)
    ensures
        r.success ==> successes(rs.push(r)) == successes(rs) + 1,
        r.success ==> prompt_total(rs.push(r)) == prompt_total(rs) + r.prompt_tokens,
        r.success ==> output_total(rs.push(r)) == output_total(rs) + r.output_tokens,
        r.success ==> failures(rs.push(r)) == failures(rs),
        !r.success ==> successes(rs.push(r)) == successes(rs),
        !r.success ==> prompt_total(rs.push(r)) == prompt_total(rs),
        !r.success ==> output_total(rs.push(r)) == output_total(rs),
        !r.success ==> failures(rs.push(r)) == failures(rs).push(r),
{
    assert(rs.push(r).drop_last() =~= rs);
}

} // verus!
