//! Report labels and the header of the per-case summary table.
use vstd::prelude::*;
use crate::matrix::Case;
use crate::text::{
    chars_eq, chars_eq_str, chars_of, dec, extend_chars, extend_str, join, join_chars, push_decimal,
    push_text, split_chars, split_on, string_of, string_views, views,
};
use crate::utils::{error_summary, normalize_error};
use crate::text::law_split_undoes_join;
use crate::text::{
    group_view, groups_view, parse_usize, parse_usize_chars, regex_capture_groups,
    regex_captures, regex_pieces, regex_split, rfind_chars, rfind_piece, suffix_chars, text_eq,
};
use crate::runner::{run_search_key, run_search_marker};

verus! {

/// The report's word for a length bucket: 短, 中 or 长 for `short`, `mid`
/// and `long`; any other bucket is written `mid`.
pub open spec fn bucket_word(bucket: Seq<char>) -> Seq<char> {
    if bucket == "short"@ {
        "短"@
    } else if bucket == "mid"@ {
        "中"@
    } else if bucket == "long"@ {
        "长"@
    } else {
        "mid"@
    }
}

fn push_bucket_word(v: &mut Vec<char>, bucket: &str)
    ensures
        final(v)@ == old(v)@ + bucket_word(bucket@),
{
    let b = chars_of(bucket);
    if chars_eq_str(&b, "short") {
        extend_str(v, "短");
    } else if chars_eq_str(&b, "mid") {
        extend_str(v, "中");
    } else if chars_eq_str(&b, "long") {
        extend_str(v, "长");
    } else {
        extend_str(v, "mid");
    }
}

/// The report's mode of a case, such as `短输入短输出`: the words of its
/// input and output buckets.
pub fn company_mode(case: &Case) -> (mode: String)
    ensures
        mode@ == bucket_word(case.input_bucket@) + "输入"@ + bucket_word(case.output_bucket@)
            + "输出"@,
{
    let mut v: Vec<char> = Vec::new();
    push_bucket_word(&mut v, case.input_bucket.as_str());
    extend_str(&mut v, "输入");
    push_bucket_word(&mut v, case.output_bucket.as_str());
    extend_str(&mut v, "输出");
    proof {
        assert(v@ =~= Seq::<char>::empty() + bucket_word(case.input_bucket@) + "输入"@
            + bucket_word(case.output_bucket@) + "输出"@);
    }
    string_of(&v)
}

/// The columns of the per-case summary table.
pub open spec fn summary_header() -> Seq<Seq<char>> {
    seq![
        "timestamp"@,
        "model_name"@,
        "gpu_devices"@,
        "parallel_size"@,
        "ctx_size"@,
        "batch_size"@,
        "num_prompts"@,
        "input_len"@,
        "output_len"@,
        "input_bucket"@,
        "output_bucket"@,
        "concurrency_bucket"@,
        "case_id"@,
        "benchmark_mode"@,
        "status"@,
        "error"@,
        "prompt_token_source"@,
        "output_token_source"@,
        "output_tok_s"@,
        "ttft_ms"@,
        "tpot_ms"@,
        "successful_requests"@,
        "failed_requests"@,
    ]
}

/// The columns of the per-case summary table.
pub fn summary_header_fields() -> (h: Vec<String>)
    ensures
        string_views(h@) == summary_header(),
{
    let mut h: Vec<String> = Vec::new();
    push_text(&mut h, "timestamp".to_owned());
    push_text(&mut h, "model_name".to_owned());
    push_text(&mut h, "gpu_devices".to_owned());
    push_text(&mut h, "parallel_size".to_owned());
    push_text(&mut h, "ctx_size".to_owned());
    push_text(&mut h, "batch_size".to_owned());
    push_text(&mut h, "num_prompts".to_owned());
    push_text(&mut h, "input_len".to_owned());
    push_text(&mut h, "output_len".to_owned());
    push_text(&mut h, "input_bucket".to_owned());
    push_text(&mut h, "output_bucket".to_owned());
    push_text(&mut h, "concurrency_bucket".to_owned());
    push_text(&mut h, "case_id".to_owned());
    push_text(&mut h, "benchmark_mode".to_owned());
    push_text(&mut h, "status".to_owned());
    push_text(&mut h, "error".to_owned());
    push_text(&mut h, "prompt_token_source".to_owned());
    push_text(&mut h, "output_token_source".to_owned());
    push_text(&mut h, "output_tok_s".to_owned());
    push_text(&mut h, "ttft_ms".to_owned());
    push_text(&mut h, "tpot_ms".to_owned());
    push_text(&mut h, "successful_requests".to_owned());
    push_text(&mut h, "failed_requests".to_owned());
    proof {
        assert(string_views(h@) =~= summary_header());
    }
    h
}

/// Whether the first line of an existing summary table is its header: the
/// line's comma-separated fields are exactly the columns.
pub fn summary_header_matches(first_line: &str) -> (r: bool)
    ensures
        r == (split_on(first_line@, ',') == summary_header()),
{
    let line = chars_of(first_line);
    let fields = split_chars(&line, ',');
    let header = summary_header_fields();
    if fields.len() != header.len() {
        proof {
            assert(views(fields@).len() != summary_header().len());
        }
        return false;
    }
    let mut i: usize = 0;
    while i < fields.len()
        invariant
            fields.len() == header.len(),
            i <= fields.len(),
            views(fields@) == split_on(first_line@, ','),
            string_views(header@) == summary_header(),
            forall|k: int| 0 <= k < i ==> fields@[k]@ == header@[k]@,
        decreases fields.len() - i,
    {
        let h = chars_of(header[i].as_str());
        if !chars_eq(&fields[i], &h) {
            proof {
                assert(views(fields@)[i as int] != string_views(header@)[i as int]);
            }
            return false;
        }
        i += 1;
    }
    proof {
        assert(views(fields@) =~= string_views(header@));
    }
    true
}

// ---------------------------------------------------------------------
// The company report
// ---------------------------------------------------------------------

/// The remarks of a company report row: the backend, benchmark mode, slot
/// count, context, batch and GPU selection; the token count sources when
/// either is known (`-` for an unknown one); the failed requests when
/// there were any; the error, summarised, when there was one.
pub open spec fn remarks_of(
    benchmark_mode: Seq<char>,
    parallel_size: usize,
    ctx_size: usize,
    batch_size: usize,
    gpu_devices_label: Seq<char>,
    prompt_source: Seq<char>,
    output_source: Seq<char>,
    failed_requests: usize,
    error: Seq<char>,
) -> Seq<Seq<char>> {
    seq![
        "backend=llama.cpp"@,
        "benchmark="@ + benchmark_mode,
        "server_slots="@ + dec(parallel_size as nat),
        "ctx="@ + dec(ctx_size as nat),
        "batch="@ + dec(batch_size as nat),
        "gpu_devices="@ + gpu_devices_label,
    ] + (if prompt_source.len() > 0 || output_source.len() > 0 {
        seq![
            "token_source="@ + (if prompt_source.len() == 0 { "-"@ } else { prompt_source }) + " / "@
                + (if output_source.len() == 0 { "-"@ } else { output_source }),
        ]
    } else {
        Seq::empty()
    }) + (if failed_requests > 0 {
        seq!["failed_requests="@ + dec(failed_requests as nat)]
    } else {
        Seq::empty()
    }) + (if error.len() > 0 {
        seq!["error="@ + error_summary(error)]
    } else {
        Seq::empty()
    })
}

fn labelled(label: &str, value: &str) -> (v: Vec<char>)
    ensures
        v@ == label@ + value@,
{
    let mut v: Vec<char> = Vec::new();
    extend_str(&mut v, label);
    extend_str(&mut v, value);
    v
}

fn labelled_number(label: &str, n: usize) -> (v: Vec<char>)
    ensures
        v@ == label@ + dec(n as nat),
{
    let mut v: Vec<char> = Vec::new();
    extend_str(&mut v, label);
    push_decimal(&mut v, n);
    v
}

/// The remarks column of a company report row: the remarks (see
/// `remarks_of`) joined with `; `.
pub fn company_remarks(
    benchmark_mode: &str,
    parallel_size: usize,
    ctx_size: usize,
    batch_size: usize,
    gpu_devices_label: &str,
    prompt_source: &str,
    output_source: &str,
    failed_requests: usize,
    error: &str,
) -> (r: String)
    ensures
        r@ == join(
            remarks_of(
                benchmark_mode@,
                parallel_size,
                ctx_size,
                batch_size,
                gpu_devices_label@,
                prompt_source@,
                output_source@,
                failed_requests,
                error@,
            ),
            "; "@,
        ),
{
    let mut parts: Vec<Vec<char>> = Vec::new();
    parts.push(chars_of("backend=llama.cpp"));
    parts.push(labelled("benchmark=", benchmark_mode));
    parts.push(labelled_number("server_slots=", parallel_size));
    parts.push(labelled_number("ctx=", ctx_size));
    parts.push(labelled_number("batch=", batch_size));
    parts.push(labelled("gpu_devices=", gpu_devices_label));
    let ghost base = views(parts@);
    let ps = chars_of(prompt_source);
    let os = chars_of(output_source);
    if ps.len() > 0 || os.len() > 0 {
        let mut v: Vec<char> = Vec::new();
        extend_str(&mut v, "token_source=");
        if ps.len() == 0 {
            extend_str(&mut v, "-");
        } else {
            extend_chars(&mut v, &ps);
        }
        extend_str(&mut v, " / ");
        if os.len() == 0 {
            extend_str(&mut v, "-");
        } else {
            extend_chars(&mut v, &os);
        }
        parts.push(v);
    }
    let ghost with_sources = views(parts@);
    if failed_requests > 0 {
        parts.push(labelled_number("failed_requests=", failed_requests));
    }
    let ghost with_failed = views(parts@);
    if error.unicode_len() > 0 {
        let summary = normalize_error(error);
        parts.push(labelled("error=", summary.as_str()));
    }
    proof {
        assert(views(parts@) =~= remarks_of(
            benchmark_mode@,
            parallel_size,
            ctx_size,
            batch_size,
            gpu_devices_label@,
            prompt_source@,
            output_source@,
            failed_requests,
            error@,
        ));
    }
    let sep = chars_of("; ");
    let joined = join_chars(&parts, &sep);
    string_of(&joined)
}

/// The position of the last entry of `cases` that is `c`, if any.
pub open spec fn last_position(cases: Seq<usize>, c: usize) -> Option<int>
    decreases cases.len(),
{
    if cases.len() == 0 {
        None
    } else if cases.last() == c {
        Some(cases.len() - 1)
    } else {
        last_position(cases.drop_last(), c)
    }
}

/// The rows kept for the report, as positions in the order they were
/// found: for each case below `n`, in case order, its last row.
pub open spec fn kept_rows(cases: Seq<usize>, n: nat) -> Seq<int>
    decreases n,
{
    if n == 0 {
        Seq::empty()
    } else {
        let rest = kept_rows(cases, (n - 1) as nat);
        match last_position(cases, (n - 1) as usize) {
            Some(p) => rest.push(p),
            None => rest,
        }
    }
}

fn find_last(cases: &Vec<usize>, c: usize) -> (r: Option<usize>)
    ensures
        match r {
            Some(p) => Some(p as int),
            None => None::<int>,
        } == last_position(cases@, c),
{
    let mut i: usize = cases.len();
    proof {
        assert(cases@.take(i as int) =~= cases@);
    }
    while i > 0
        invariant
            i <= cases@.len(),
            last_position(cases@, c) == last_position(cases@.take(i as int), c),
        decreases i,
    {
        proof {
            assert(cases@.take(i as int).drop_last() =~= cases@.take(i - 1));
        }
        if cases[i - 1] == c {
            return Some(i - 1);
        }
        i -= 1;
    }
    None
}

/// The report rows to write, given the case of each row found (its
/// position among the planned cases), in the order they were found, and
/// the number of planned cases: for each case, in plan order, the
/// position of its last row.
pub fn report_row_order(row_cases: &Vec<usize>, n_cases: usize) -> (out: Vec<usize>)
    ensures
        out@.map_values(|p: usize| p as int) == kept_rows(row_cases@, n_cases as nat),
{
    let mut out: Vec<usize> = Vec::new();
    let mut c: usize = 0;
    while c < n_cases
        invariant
            c <= n_cases,
            out@.map_values(|p: usize| p as int) == kept_rows(row_cases@, c as nat),
        decreases n_cases - c,
    {
        let ghost before = out@;
        match find_last(row_cases, c) {
            Some(p) => {
                out.push(p);
                proof {
                    assert(out@.map_values(|p: usize| p as int) =~= before.map_values(|p: usize| p as int).push(p as int));
                }
            },
            None => {},
        }
        c += 1;
    }
    out
}

/// The header line the summary table is written with (its columns joined
/// with commas) is recognised as the table's header when the table is
/// opened again, so an existing table of the right shape is kept.
pub proof fn law_written_header_is_recognised()
    ensures
        split_on(join(summary_header(), ","@), ',') == summary_header(),
{
    reveal_strlit(",");
    assert(","@ =~= seq![',']);
    let h = summary_header();
    reveal_strlit("timestamp");
    reveal_strlit("model_name");
    reveal_strlit("gpu_devices");
    reveal_strlit("parallel_size");
    reveal_strlit("ctx_size");
    reveal_strlit("batch_size");
    reveal_strlit("num_prompts");
    reveal_strlit("input_len");
    reveal_strlit("output_len");
    reveal_strlit("input_bucket");
    reveal_strlit("output_bucket");
    reveal_strlit("concurrency_bucket");
    reveal_strlit("case_id");
    reveal_strlit("benchmark_mode");
    reveal_strlit("status");
    reveal_strlit("error");
    reveal_strlit("prompt_token_source");
    reveal_strlit("output_token_source");
    reveal_strlit("output_tok_s");
    reveal_strlit("ttft_ms");
    reveal_strlit("tpot_ms");
    reveal_strlit("successful_requests");
    reveal_strlit("failed_requests");
    assert forall|i: int| 0 <= i < h.len() implies !(#[trigger] h[i]).contains(',') by {
        if h[i].contains(',') {
            let k = choose|k: int| 0 <= k < h[i].len() && h[i][k] == ',';
            assert(h[i][k] == ',');
        }
    }
    law_split_undoes_join(h, ',');
}

/// The pattern of the line that opens a case's block in a result log; its
/// groups are the case id, the context size, the batch size and the dtype.
pub const CASE_HEADER_PATTERN: &'static str = r"开始\s+\d+/\d+\s+(?P<case_id>\S+)\s+ctx=(?P<ctx_size>\d+)\s+batch=(?P<batch_size>\d+)\s+dtype=(?P<dtype>\S+)\s+测试";

/// The pattern of a block's status line; its groups are the status and the
/// error text.
pub const STATUS_LINE_PATTERN: &'static str = r"(?m)^status=(?P<status>\S+)\s+error=(?P<error>.*)$";

/// One case's block of a result log, as the report reads it.
pub struct CaseBlock {
    pub case_id: String,
    pub ctx_size: usize,
    pub batch_size: usize,
    pub error: String,
    /// The text between this block's header and the next one.
    pub body: String,
}

impl View for CaseBlock {
    type V = (Seq<char>, usize, usize, Seq<char>, Seq<char>);

    open spec fn view(&self) -> Self::V {
        (self.case_id@, self.ctx_size, self.batch_size, self.error@, self.body@)
    }
}

/// The views of a list of blocks.
pub open spec fn views_of(v: Seq<CaseBlock>) -> Seq<(Seq<char>, usize, usize, Seq<char>, Seq<char>)> {
    v.map_values(|b: CaseBlock| b@)
}

/// Group `k` of a match, when the match has it and it took part.
pub open spec fn group_of(m: Seq<Option<Seq<char>>>, k: int) -> Option<Seq<char>> {
    if 0 <= k < m.len() {
        m[k]
    } else {
        None
    }
}

/// The text of a group, empty when it is missing.
pub open spec fn group_text(g: Option<Seq<char>>) -> Seq<char> {
    match g {
        Some(t) => t,
        None => Seq::empty(),
    }
}

/// The number a group holds, 0 when it is missing or no `usize`.
pub open spec fn group_number(g: Option<Seq<char>>) -> usize {
    match g {
        Some(t) => match parse_usize(t) {
            Ok(n) => n,
            Err(_) => 0,
        },
        None => 0,
    }
}

/// The first of a list of matches, by its groups.
pub open spec fn first_match(ms: Option<Seq<Seq<Option<Seq<char>>>>>) -> Option<Seq<Option<Seq<char>>>> {
    match ms {
        Some(ms) => if ms.len() > 0 {
            Some(ms[0])
        } else {
            None
        },
        None => None,
    }
}

/// The matches of a regex search, by their groups.
pub open spec fn opt_groups(o: Option<Vec<Vec<Option<String>>>>) -> Option<Seq<Seq<Option<Seq<char>>>>> {
    match o {
        Some(v) => Some(groups_view(v@)),
        None => None,
    }
}

/// The first status line of a block body, by its groups.
pub open spec fn status_line(body: Seq<char>) -> Option<Seq<Option<Seq<char>>>> {
    first_match(regex_captures(STATUS_LINE_PATTERN@, body))
}

/// The block read from a header's groups, the body after it and the
/// status pattern's matches in that body: `None` unless the first status
/// line says `completed`; else the case id, the context and batch sizes,
/// the error text of that line, and the body.
pub open spec fn block_of(
    header: Seq<Option<Seq<char>>>,
    body: Seq<char>,
    status_matches: Option<Seq<Seq<Option<Seq<char>>>>>,
) -> Option<(Seq<char>, usize, usize, Seq<char>, Seq<char>)> {
    match first_match(status_matches) {
        Some(m) => if group_of(m, 1) == Some("completed"@) {
            Some(
                (
                    group_text(group_of(header, 1)),
                    group_number(group_of(header, 2)),
                    group_number(group_of(header, 3)),
                    group_text(group_of(m, 2)),
                    body,
                ),
            )
        } else {
            None
        },
        None => None,
    }
}

/// A block counts when its first status line says `completed`.
pub open spec fn is_completed(body: Seq<char>) -> bool {
    match status_line(body) {
        Some(m) => group_of(m, 1) == Some("completed"@),
        None => false,
    }
}

/// The body of block `k`: the piece of the text after its header.
pub open spec fn body_of(pieces: Seq<Seq<char>>, k: int) -> Seq<char> {
    if 0 <= k + 1 < pieces.len() {
        pieces[k + 1]
    } else {
        Seq::empty()
    }
}

/// Block `k` read from its header's groups and its body.
pub open spec fn block_at(headers: Seq<Seq<Option<Seq<char>>>>, pieces: Seq<Seq<char>>, k: int) -> (
    Seq<char>,
    usize,
    usize,
    Seq<char>,
    Seq<char>,
) {
    let body = body_of(pieces, k);
    let error = match status_line(body) {
        Some(m) => group_text(group_of(m, 2)),
        None => Seq::empty(),
    };
    (
        group_text(group_of(headers[k], 1)),
        group_number(group_of(headers[k], 2)),
        group_number(group_of(headers[k], 3)),
        error,
        body,
    )
}

/// The completed blocks among the first `n` headers, in order.
pub open spec fn completed_among(headers: Seq<Seq<Option<Seq<char>>>>, pieces: Seq<Seq<char>>, n: int) -> Seq<
    (Seq<char>, usize, usize, Seq<char>, Seq<char>),
>
    decreases n,
{
    if n <= 0 {
        Seq::empty()
    } else if is_completed(body_of(pieces, n - 1)) {
        completed_among(headers, pieces, n - 1).push(block_at(headers, pieces, n - 1))
    } else {
        completed_among(headers, pieces, n - 1)
    }
}

/// The completed case blocks of the last run `run_id` in a result log: the
/// text from the last line that marks the run on, cut at each case header;
/// empty when the run is not in the log.
pub open spec fn completed_blocks(log: Seq<char>, run_id: Seq<char>) -> Seq<
    (Seq<char>, usize, usize, Seq<char>, Seq<char>),
> {
    match rfind_piece(log, run_search_key(run_id)) {
        None => Seq::empty(),
        Some(i) => {
            let t = log.skip(i);
            match (regex_captures(CASE_HEADER_PATTERN@, t), regex_pieces(CASE_HEADER_PATTERN@, t)) {
                (Some(h), Some(p)) => completed_among(h, p, h.len() as int),
                _ => Seq::empty(),
            }
        },
    }
}

/// Group `k` of a match, copied.
fn group_string(m: &Vec<Option<String>>, k: usize) -> (r: Option<String>)
    ensures
        match r {
            Some(s) => group_of(group_view(m@), k as int) == Some(s@),
            None => group_of(group_view(m@), k as int) == None::<Seq<char>>,
        },
{
    if k < m.len() {
        match &m[k] {
            Some(s) => Some(s.clone()),
            None => None,
        }
    } else {
        None
    }
}

/// The number group `k` of a match holds, 0 when it is missing or no `usize`.
fn group_usize(m: &Vec<Option<String>>, k: usize) -> (n: usize)
    ensures
        n == group_number(group_of(group_view(m@), k as int)),
{
    match group_string(m, k) {
        Some(s) => match parse_usize_chars(&chars_of(s.as_str())) {
            Ok(n) => n,
            Err(_) => 0,
        },
        None => 0,
    }
}

/// The block read from a header's groups, the body after it and the
/// status pattern's matches in that body (see `block_of`).
pub fn case_block_of(
    header: &Vec<Option<String>>,
    body: String,
    status_matches: Option<Vec<Vec<Option<String>>>>,
) -> (b: Option<CaseBlock>)
    ensures
        match b {
            Some(x) => block_of(group_view(header@), body@, opt_groups(status_matches)) == Some(x@),
            None => block_of(group_view(header@), body@, opt_groups(status_matches)) == None::<
                (Seq<char>, usize, usize, Seq<char>, Seq<char>),
            >,
        },
{
    let ms = match status_matches {
        Some(ms) => ms,
        None => {
            return None;
        },
    };
    if ms.len() == 0 {
        return None;
    }
    proof {
        assert(groups_view(ms@)[0] == group_view(ms@[0]@));
    }
    let m = &ms[0];
    let completed = match group_string(m, 1) {
        Some(s) => text_eq(s.as_str(), "completed"),
        None => false,
    };
    if !completed {
        return None;
    }
    let case_id = match group_string(header, 1) {
        Some(s) => s,
        None => String::new(),
    };
    let ctx_size = group_usize(header, 2);
    let batch_size = group_usize(header, 3);
    let error = match group_string(m, 2) {
        Some(s) => s,
        None => String::new(),
    };
    Some(CaseBlock { case_id, ctx_size, batch_size, error, body })
}

/// The completed case blocks that the case header pattern's matches in a
/// run's text (`headers`, by their groups) and the pieces of that text
/// between them (`pieces`) give, in order; each body's status line is
/// looked up with the status pattern.
pub fn blocks_from_matches(headers: &Vec<Vec<Option<String>>>, pieces: &Vec<String>) -> (blocks: Vec<CaseBlock>)
    ensures
        views_of(blocks@) == completed_among(groups_view(headers@), string_views(pieces@), headers@.len() as int),
{
    let ghost hv = groups_view(headers@);
    let ghost pv = string_views(pieces@);
    let mut out: Vec<CaseBlock> = Vec::new();
    proof {
        assert(views_of(out@) =~= completed_among(hv, pv, 0));
    }
    let mut k: usize = 0;
    while k < headers.len()
        invariant
            k <= headers.len(),
            hv == groups_view(headers@),
            pv == string_views(pieces@),
            views_of(out@) == completed_among(hv, pv, k as int),
        decreases headers.len() - k,
    {
        let body: String = if k + 1 < pieces.len() {
            pieces[k + 1].clone()
        } else {
            String::new()
        };
        assert(body@ == body_of(pv, k as int));
        assert(hv[k as int] == group_view(headers@[k as int]@));
        let status = regex_capture_groups(STATUS_LINE_PATTERN, body.as_str());
        match case_block_of(&headers[k], body, status) {
            Some(b) => {
                let ghost before = out@;
                out.push(b);
                proof {
                    assert(views_of(out@) =~= views_of(before).push(block_at(hv, pv, k as int)));
                }
            },
            None => {},
        }
        k += 1;
    }
    out
}

/// The completed case blocks of the last run `run_id` in the text of a
/// result log, in the order they stand there.
pub fn completed_case_blocks(log_text: &str, run_id: &str) -> (blocks: Vec<CaseBlock>)
    ensures
        views_of(blocks@) == completed_blocks(log_text@, run_id@),
{
    let log = chars_of(log_text);
    let marker = run_search_marker(run_id);
    let key = chars_of(marker.as_str());
    let start = match rfind_chars(&log, &key) {
        Some(i) => i,
        None => {
            proof {
                assert(views_of(Seq::<CaseBlock>::empty()) =~= Seq::empty());
            }
            return Vec::new();
        },
    };
    let tail = string_of(&suffix_chars(&log, start));
    let headers = match regex_capture_groups(CASE_HEADER_PATTERN, tail.as_str()) {
        Some(h) => h,
        None => {
            proof {
                assert(views_of(Seq::<CaseBlock>::empty()) =~= Seq::empty());
            }
            return Vec::new();
        },
    };
    let pieces = match regex_split(CASE_HEADER_PATTERN, tail.as_str()) {
        Some(p) => p,
        None => {
            proof {
                assert(views_of(Seq::<CaseBlock>::empty()) =~= Seq::empty());
            }
            return Vec::new();
        },
    };
    blocks_from_matches(&headers, &pieces)
}

/// The position of the last case whose id is `id`.
pub open spec fn last_case_with_id(cases: Seq<Case>, id: Seq<char>) -> Option<int>
    decreases cases.len(),
{
    if cases.len() == 0 {
        None
    } else if cases.last().id_text() == id {
        Some(cases.len() - 1)
    } else {
        last_case_with_id(cases.drop_last(), id)
    }
}

/// The position of the last planned case whose id is `id`: the case a
/// block of the result log with that id is reported under.
pub fn last_case_index(cases: &[Case], id: &str) -> (r: Option<usize>)
    ensures
        match r {
            Some(i) => last_case_with_id(cases@, id@) == Some(i as int),
            None => last_case_with_id(cases@, id@) == None::<int>,
        },
{
    let mut i: usize = cases.len();
    proof {
        assert(cases@.take(i as int) =~= cases@);
    }
    while i > 0
        invariant
            i <= cases.len(),
            last_case_with_id(cases@, id@) == last_case_with_id(cases@.take(i as int), id@),
        decreases i,
    {
        let c = cases[i - 1].case_id();
        proof {
            assert(cases@.take(i as int).last() == cases@[i - 1]);
            assert(cases@.take(i as int).drop_last() =~= cases@.take(i - 1));
        }
        if text_eq(c.as_str(), id) {
            return Some(i - 1);
        }
        i -= 1;
    }
    None
}

proof fn lemma_completed_among(headers: Seq<Seq<Option<Seq<char>>>>, pieces: Seq<Seq<char>>, n: int)
    ensures
        forall|k: int|
            0 <= k < completed_among(headers, pieces, n).len() ==> is_completed(
                #[trigger] completed_among(headers, pieces, n)[k].4,
            ),
    decreases n,
{
    if n > 0 {
        lemma_completed_among(headers, pieces, n - 1);
        let prev = completed_among(headers, pieces, n - 1);
        if is_completed(body_of(pieces, n - 1)) {
            let b = block_at(headers, pieces, n - 1);
            assert(b.4 == body_of(pieces, n - 1));
            assert forall|k: int| 0 <= k < prev.push(b).len() implies is_completed(#[trigger] prev.push(b)[k].4) by {
                if k < prev.len() {
                    assert(prev.push(b)[k] == prev[k]);
                }
            }
        }
    }
}

/// Every block the report reads from a result log is one whose status line
/// says `completed`.
pub proof fn law_reported_blocks_are_completed(log: Seq<char>, run_id: Seq<char>)
    ensures
        forall|k: int|
            0 <= k < completed_blocks(log, run_id).len() ==> is_completed(
                #[trigger] completed_blocks(log, run_id)[k].4,
            ),
{
    match rfind_piece(log, run_search_key(run_id)) {
        None => {},
        Some(i) => {
            let t = log.skip(i);
            match (regex_captures(CASE_HEADER_PATTERN@, t), regex_pieces(CASE_HEADER_PATTERN@, t)) {
                (Some(h), Some(p)) => {
                    lemma_completed_among(h, p, h.len() as int);
                },
                _ => {},
            }
        },
    }
}

} // verus!
