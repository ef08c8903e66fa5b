//! Decisions of the matrix run: which context groups to skip after a
//! server failed to start, what status a finished case gets, which cases
//! warm a server up, and the names and lines the run writes.
use vstd::prelude::*;
use rand::seq::SliceRandom;
use crate::matrix::Case;
use crate::text::{contains_piece, dec, extend_str, push_decimal, string_of};
use crate::utils::{error_summary, normalize_error};

verus! {

/// A recorded startup failure `(parallel, ctx)` rules out a group that
/// needs at least as many slots and at least as much context per slot.
pub open spec fn blocks(f: (usize, usize), ctx: usize, parallel: usize) -> bool {
    parallel >= f.0 && ctx >= f.1
}

/// Some recorded failure rules out `(ctx, parallel)`.
pub open spec fn blocked(fs: Seq<(usize, usize)>, ctx: usize, parallel: usize) -> bool {
    exists|k: int| 0 <= k < fs.len() && blocks(#[trigger] fs[k], ctx, parallel)
}

/// The first recorded failure that rules out `(ctx, parallel)`.
pub open spec fn first_blocking(fs: Seq<(usize, usize)>, ctx: usize, parallel: usize) -> Option<(usize, usize)>
    decreases fs.len(),
{
    if fs.len() == 0 {
        None
    } else if blocks(fs[0], ctx, parallel) {
        Some(fs[0])
    } else {
        first_blocking(fs.drop_first(), ctx, parallel)
    }
}

/// The failures of `fs` that `(ctx, parallel)` does not rule out in turn.
pub open spec fn not_dominated(fs: Seq<(usize, usize)>, ctx: usize, parallel: usize) -> Seq<(usize, usize)>
    decreases fs.len(),
{
    if fs.len() == 0 {
        fs
    } else if parallel <= fs.last().0 && ctx <= fs.last().1 {
        not_dominated(fs.drop_last(), ctx, parallel)
    } else {
        not_dominated(fs.drop_last(), ctx, parallel).push(fs.last())
    }
}

/// The failure list after a startup failure at `(ctx, parallel)`: unchanged
/// when a recorded failure already rules it out; otherwise the failures it
/// rules out are dropped and it is added last.
pub open spec fn after_failure(fs: Seq<(usize, usize)>, ctx: usize, parallel: usize) -> Seq<(usize, usize)> {
    if blocked(fs, ctx, parallel) {
        fs
    } else {
        not_dominated(fs, ctx, parallel).push((parallel, ctx))
    }
}

/// No recorded failure rules out another one.
pub open spec fn antichain(fs: Seq<(usize, usize)>) -> bool {
    forall|i: int, j: int|
        0 <= i < fs.len() && 0 <= j < fs.len() && i != j ==> !(fs[i].0 <= fs[j].0 && fs[i].1
            <= fs[j].1)
}

proof fn lemma_first_blocking(fs: Seq<(usize, usize)>, ctx: usize, parallel: usize)
    ensures
        first_blocking(fs, ctx, parallel) is None <==> !blocked(fs, ctx, parallel),
        first_blocking(fs, ctx, parallel) matches Some(f) ==> fs.contains(f) && blocks(
            f,
            ctx,
            parallel,
        ),
    decreases fs.len(),
{
    if fs.len() > 0 {
        lemma_first_blocking(fs.drop_first(), ctx, parallel);
        if blocked(fs, ctx, parallel) && !blocks(fs[0], ctx, parallel) {
            let k = choose|k: int| 0 <= k < fs.len() && blocks(#[trigger] fs[k], ctx, parallel);
            assert(fs.drop_first()[k - 1] == fs[k]);
        }
        if blocked(fs.drop_first(), ctx, parallel) {
            let k = choose|k: int|
                0 <= k < fs.drop_first().len() && blocks(#[trigger] fs.drop_first()[k], ctx, parallel);
            assert(fs[k + 1] == fs.drop_first()[k]);
        }
        match first_blocking(fs.drop_first(), ctx, parallel) {
            Some(f) => {
                let k = choose|k: int| 0 <= k < fs.drop_first().len() && fs.drop_first()[k] == f;
                assert(fs[k + 1] == f);
            },
            None => {},
        }
        if blocks(fs[0], ctx, parallel) {
            assert(fs[0] == fs[0]);
        }
    }
}

proof fn lemma_not_dominated(fs: Seq<(usize, usize)>, ctx: usize, parallel: usize)
    ensures
        forall|f: (usize, usize)|
            #![trigger not_dominated(fs, ctx, parallel).contains(f)]
            #![trigger fs.contains(f)]
            not_dominated(fs, ctx, parallel).contains(f) <==> (fs.contains(f) && !(parallel <= f.0
                && ctx <= f.1)),
    decreases fs.len(),
{
    if fs.len() > 0 {
        let r = not_dominated(fs.drop_last(), ctx, parallel);
        lemma_not_dominated(fs.drop_last(), ctx, parallel);
        let nd = not_dominated(fs, ctx, parallel);
        assert forall|f: (usize, usize)|
            #![trigger nd.contains(f)]
            #![trigger fs.contains(f)]
            nd.contains(f) <==> (fs.contains(f) && !(parallel <= f.0 && ctx <= f.1)) by {
            if nd.contains(f) {
                let k = choose|k: int| 0 <= k < nd.len() && nd[k] == f;
                if k < r.len() {
                    assert(r[k] == f);
                    assert(r.contains(f));
                    let m = choose|m: int| 0 <= m < fs.drop_last().len() && fs.drop_last()[m] == f;
                    assert(fs[m] == f);
                } else {
                    assert(fs[fs.len() - 1] == f);
                }
            }
            if fs.contains(f) && !(parallel <= f.0 && ctx <= f.1) {
                let m = choose|m: int| 0 <= m < fs.len() && fs[m] == f;
                if m < fs.len() - 1 {
                    assert(fs.drop_last()[m] == f);
                    assert(r.contains(f));
                    let k = choose|k: int| 0 <= k < r.len() && r[k] == f;
                    assert(nd[k] == f);
                } else {
                    assert(nd[nd.len() - 1] == f);
                }
            }
        }
    }
}

proof fn lemma_not_dominated_antichain(fs: Seq<(usize, usize)>, ctx: usize, parallel: usize)
    requires
        antichain(fs),
    ensures
        antichain(not_dominated(fs, ctx, parallel)),
    decreases fs.len(),
{
    if fs.len() > 0 {
        let d = fs.drop_last();
        assert(antichain(d)) by {
            assert forall|i: int, j: int|
                0 <= i < d.len() && 0 <= j < d.len() && i != j implies !(d[i].0 <= d[j].0 && d[i].1
                <= d[j].1) by {
                assert(d[i] == fs[i] && d[j] == fs[j]);
            }
        }
        lemma_not_dominated_antichain(d, ctx, parallel);
        lemma_not_dominated(d, ctx, parallel);
        let r = not_dominated(d, ctx, parallel);
        let nd = not_dominated(fs, ctx, parallel);
        let l = fs.last();
        if !(parallel <= l.0 && ctx <= l.1) {
            assert forall|i: int, j: int|
                0 <= i < nd.len() && 0 <= j < nd.len() && i != j implies !(nd[i].0 <= nd[j].0
                && nd[i].1 <= nd[j].1) by {
                if i < r.len() && j < r.len() {
                } else {
                    let k = if i < r.len() { i } else { j };
                    assert(r.contains(r[k]));
                    assert(d.contains(r[k]));
                    let m = choose|m: int| 0 <= m < d.len() && d[m] == r[k];
                    assert(fs[m] == r[k]);
                    assert(fs[fs.len() - 1] == l);
                }
            }
        }
    }
}

/// The first recorded startup failure that rules out a group needing
/// `required_context_per_slot` per slot with `parallel_size` slots.
pub fn matching_failure(
    failures: &[(usize, usize)],
    required_context_per_slot: usize,
    parallel_size: usize,
) -> (r: Option<(usize, usize)>)
    ensures
        r == first_blocking(failures@, required_context_per_slot, parallel_size),
{
    let mut i: usize = 0;
    proof {
        assert(failures@.skip(0) =~= failures@);
    }
    while i < failures.len()
        invariant
            i <= failures@.len(),
            first_blocking(failures@, required_context_per_slot, parallel_size) == first_blocking(
                failures@.skip(i as int),
                required_context_per_slot,
                parallel_size,
            ),
        decreases failures.len() - i,
    {
        let (fp, fc) = failures[i];
        proof {
            assert(failures@.skip(i as int)[0] == (fp, fc));
            assert(failures@.skip(i as int).drop_first() =~= failures@.skip(i + 1));
        }
        if parallel_size >= fp && required_context_per_slot >= fc {
            return Some((fp, fc));
        }
        i += 1;
    }
    None
}

/// Records a startup failure at `(required_context_per_slot, parallel_size)`:
/// nothing changes when a recorded failure already rules it out; otherwise
/// the failures it rules out are dropped and it is added.
pub fn mark_failed(failures: &mut Vec<(usize, usize)>, required_context_per_slot: usize, parallel_size: usize)
    ensures
        final(failures)@ == after_failure(old(failures)@, required_context_per_slot, parallel_size),
{
    let ghost fs = failures@;
    let mut i: usize = 0;
    while i < failures.len()
        invariant
            failures@ == fs,
            i <= fs.len(),
            forall|k: int| 0 <= k < i ==> !blocks(#[trigger] fs[k], required_context_per_slot, parallel_size),
        decreases failures.len() - i,
    {
        let (fp, fc) = failures[i];
        if fp <= parallel_size && fc <= required_context_per_slot {
            proof {
                assert(blocks(fs[i as int], required_context_per_slot, parallel_size));
            }
            return;
        }
        i += 1;
    }
    let mut kept: Vec<(usize, usize)> = Vec::new();
    let mut j: usize = 0;
    proof {
        assert(fs.take(0) =~= Seq::<(usize, usize)>::empty());
    }
    while j < failures.len()
        invariant
            failures@ == fs,
            j <= fs.len(),
            kept@ == not_dominated(fs.take(j as int), required_context_per_slot, parallel_size),
        decreases failures.len() - j,
    {
        proof {
            assert(fs.take(j + 1).drop_last() =~= fs.take(j as int));
            assert(fs.take(j + 1).last() == fs[j as int]);
        }
        let (fp, fc) = failures[j];
        if !(parallel_size <= fp && required_context_per_slot <= fc) {
            kept.push((fp, fc));
        }
        j += 1;
    }
    proof {
        assert(fs.take(fs.len() as int) =~= fs);
    }
    kept.push((parallel_size, required_context_per_slot));
    *failures = kept;
}

/// After a startup failure is recorded, exactly the groups it rules out
/// join those already ruled out: a group is ruled out afterwards iff it
/// was before, or it needs at least as many slots and as much context.
pub proof fn law_failure_blocks_exactly_its_upward_closure(
    fs: Seq<(usize, usize)>,
    ctx: usize,
    parallel: usize,
    ctx2: usize,
    parallel2: usize,
)
    ensures
        blocked(after_failure(fs, ctx, parallel), ctx2, parallel2) <==> (blocked(fs, ctx2, parallel2)
            || (parallel2 >= parallel && ctx2 >= ctx)),
{
    let fs2 = after_failure(fs, ctx, parallel);
    if blocked(fs, ctx, parallel) {
        if parallel2 >= parallel && ctx2 >= ctx {
            let k = choose|k: int| 0 <= k < fs.len() && blocks(#[trigger] fs[k], ctx, parallel);
            assert(blocks(fs[k], ctx2, parallel2));
        }
    } else {
        lemma_not_dominated(fs, ctx, parallel);
        let nd = not_dominated(fs, ctx, parallel);
        if blocked(fs2, ctx2, parallel2) {
            let k = choose|k: int| 0 <= k < fs2.len() && blocks(#[trigger] fs2[k], ctx2, parallel2);
            if k < nd.len() {
                assert(nd.contains(nd[k]));
                let m = choose|m: int| 0 <= m < fs.len() && fs[m] == nd[k];
                assert(blocks(fs[m], ctx2, parallel2));
            }
        }
        if blocked(fs, ctx2, parallel2) {
            let m = choose|m: int| 0 <= m < fs.len() && blocks(#[trigger] fs[m], ctx2, parallel2);
            let f = fs[m];
            assert(fs.contains(f));
            if parallel <= f.0 && ctx <= f.1 {
                assert(blocks(fs2[fs2.len() - 1], ctx2, parallel2));
            } else {
                assert(nd.contains(f));
                let k = choose|k: int| 0 <= k < nd.len() && nd[k] == f;
                assert(fs2[k] == f);
                assert(blocks(fs2[k], ctx2, parallel2));
            }
        }
        if parallel2 >= parallel && ctx2 >= ctx {
            assert(blocks(fs2[fs2.len() - 1], ctx2, parallel2));
        }
    }
}

/// The failure just recorded rules out every group that needs at least as
/// many slots and at least as much context per slot.
pub proof fn law_recorded_failure_skips_longer_contexts(
    fs: Seq<(usize, usize)>,
    ctx: usize,
    parallel: usize,
    ctx2: usize,
    parallel2: usize,
)
    requires
        ctx2 >= ctx,
        parallel2 >= parallel,
    ensures
        first_blocking(after_failure(fs, ctx, parallel), ctx2, parallel2) is Some,
{
    law_failure_blocks_exactly_its_upward_closure(fs, ctx, parallel, ctx2, parallel2);
    lemma_first_blocking(after_failure(fs, ctx, parallel), ctx2, parallel2);
}

/// Recording a failure keeps the failure list free of failures that rule
/// out one another.
pub proof fn law_failures_stay_an_antichain(fs: Seq<(usize, usize)>, ctx: usize, parallel: usize)
    requires
        antichain(fs),
    ensures
        antichain(after_failure(fs, ctx, parallel)),
{
    if !blocked(fs, ctx, parallel) {
        lemma_not_dominated(fs, ctx, parallel);
        lemma_not_dominated_antichain(fs, ctx, parallel);
        let nd = not_dominated(fs, ctx, parallel);
        let fs2 = nd.push((parallel, ctx));
        assert forall|i: int, j: int|
            0 <= i < fs2.len() && 0 <= j < fs2.len() && i != j implies !(fs2[i].0 <= fs2[j].0
            && fs2[i].1 <= fs2[j].1) by {
            if i < nd.len() && j < nd.len() {
            } else if i < nd.len() {
                assert(nd.contains(nd[i]));
                let m = choose|m: int| 0 <= m < fs.len() && fs[m] == nd[i];
                assert(!blocks(fs[m], ctx, parallel));
            } else {
                assert(nd.contains(nd[j]));
            }
        }
    }
}

/// Recording the same failure twice changes nothing the second time.
pub proof fn law_recording_a_failure_twice_is_idempotent(fs: Seq<(usize, usize)>, ctx: usize, parallel: usize)
    ensures
        after_failure(after_failure(fs, ctx, parallel), ctx, parallel) == after_failure(fs, ctx, parallel),
{
    law_failure_blocks_exactly_its_upward_closure(fs, ctx, parallel, ctx, parallel);
}

/// The status and error recorded for a finished case, given how its
/// benchmark ended (`Ok((successful, failed))` request counts, or the
/// error), whether the server had exited by then, and the tail of the
/// server's log.
pub open spec fn outcome(
    bench: Result<(usize, usize), Seq<char>>,
    server_exited: bool,
    tail: Seq<char>,
) -> (Seq<char>, Seq<char>) {
    let own: (Seq<char>, Seq<char>) = match bench {
        Ok(_) => ("completed"@, Seq::empty()),
        Err(e) => ("case_exception"@, e),
    };
    if server_exited {
        (
            "server_crashed"@,
            if bench is Err || own.1.len() > 0 {
                "case_status="@ + own.0 + "; case_error="@ + own.1 + "; server_error="@ + tail
            } else {
                tail
            },
        )
    } else if bench matches Ok((successful, failed)) && failed > 0 && successful == 0 {
        ("case_failed"@, "all requests failed"@)
    } else {
        own
    }
}

/// The text views of a benchmark result.
pub open spec fn bench_view(b: Result<(usize, usize), String>) -> Result<(usize, usize), Seq<char>> {
    match b {
        Ok(c) => Ok(c),
        Err(e) => Err(e@),
    }
}

/// The status and error to record for a finished case (see `outcome`).
pub fn case_outcome(
    benchmark: &Result<(usize, usize), String>,
    server_exited: bool,
    server_log_tail: &str,
) -> (r: (String, String))
    ensures
        (r.0@, r.1@) == outcome(bench_view(*benchmark), server_exited, server_log_tail@),
{
    if server_exited {
        match benchmark {
            Ok(_) => {
                return ("server_crashed".to_owned(), server_log_tail.to_owned());
            },
            Err(e) => {
                let mut v: Vec<char> = Vec::new();
                extend_str(&mut v, "case_status=");
                extend_str(&mut v, "case_exception");
                extend_str(&mut v, "; case_error=");
                extend_str(&mut v, e.as_str());
                extend_str(&mut v, "; server_error=");
                extend_str(&mut v, server_log_tail);
                proof {
                    assert(v@ =~= "case_status="@ + "case_exception"@ + "; case_error="@ + e@
                        + "; server_error="@ + server_log_tail@);
                }
                return ("server_crashed".to_owned(), string_of(&v));
            },
        }
    }
    match benchmark {
        Ok((successful, failed)) => {
            if *failed > 0 && *successful == 0 {
                ("case_failed".to_owned(), "all requests failed".to_owned())
            } else {
                ("completed".to_owned(), String::new())
            }
        },
        Err(e) => ("case_exception".to_owned(), e.clone()),
    }
}

// ---------------------------------------------------------------------
// Stepping through context groups
// ---------------------------------------------------------------------

/// What to do next with the context groups of one slot count.
#[derive(Debug)]
pub enum GroupAction {
    /// Start a server with this total context and run the group's cases.
    Run { ctx_size: usize },
    /// Record the cases of this group and of all later ones with `status`
    /// and `error`, and stop.
    Skip { from_group: usize, status: String, error: String },
    /// Nothing is left to do.
    Finish,
}

/// The error recorded for groups that an earlier failure rules out.
pub open spec fn ruled_out_error(required: usize, failed_parallel: usize, failed_ctx: usize) -> Seq<char> {
    "required_context_per_slot="@ + dec(required as nat) + " 已达到或超过 parallel="@ + dec(
        failed_parallel as nat,
    ) + " 的启动失败阈值 "@ + dec(failed_ctx as nat) + "；当前 parallel 不小于失败档位，自动跳过"@
}

/// The error recorded for the longer groups after a group failed to start.
pub open spec fn longer_skipped_error(ctx_size: nat) -> Seq<char> {
    "ctx="@ + dec(ctx_size) + " 启动失败；按单调递增假设，更长上下文自动跳过"@
}

/// Whether every group's total context fits in `usize`.
pub open spec fn group_contexts_fit(grouped: Seq<(usize, Vec<Case>)>, parallel_size: usize) -> bool {
    forall|k: int| 0 <= k < grouped.len() ==> grouped[k].0 * parallel_size <= usize::MAX
}

/// The step for group `index`: finish past the last group; skip this group
/// and the rest when a recorded failure rules it out; else run it.
pub fn group_action(
    failures: &[(usize, usize)],
    grouped: &[(usize, Vec<Case>)],
    parallel_size: usize,
    index: usize,
) -> (a: GroupAction)
    requires
        group_contexts_fit(grouped@, parallel_size),
    ensures
        index >= grouped@.len() ==> a is Finish,
        index < grouped@.len() ==> match first_blocking(failures@, grouped@[index as int].0, parallel_size) {
            Some(f) => (a matches GroupAction::Skip { from_group, status, error } && from_group == index
                && status@ == "skipped_after_global_startup_limit"@ && error@ == ruled_out_error(
                grouped@[index as int].0,
                f.0,
                f.1,
            )),
            None => (a matches GroupAction::Run { ctx_size } && ctx_size == grouped@[index as int].0
                * parallel_size),
        },
{
    if index >= grouped.len() {
        return GroupAction::Finish;
    }
    let required = grouped[index].0;
    match matching_failure(failures, required, parallel_size) {
        Some((fp, fc)) => {
            let mut v: Vec<char> = Vec::new();
            extend_str(&mut v, "required_context_per_slot=");
            push_decimal(&mut v, required);
            extend_str(&mut v, " 已达到或超过 parallel=");
            push_decimal(&mut v, fp);
            extend_str(&mut v, " 的启动失败阈值 ");
            push_decimal(&mut v, fc);
            extend_str(&mut v, "；当前 parallel 不小于失败档位，自动跳过");
            proof {
                assert(v@ =~= ruled_out_error(required, fp, fc));
            }
            GroupAction::Skip {
                from_group: index,
                status: "skipped_after_global_startup_limit".to_owned(),
                error: string_of(&v),
            }
        },
        None => {
            assert(grouped@[index as int].0 * parallel_size <= usize::MAX);
            GroupAction::Run { ctx_size: required * parallel_size }
        },
    }
}

/// The step after group `index` failed to start: the failure is recorded;
/// the longer groups, if any, are skipped.
pub fn group_failed(
    failures: &mut Vec<(usize, usize)>,
    grouped: &[(usize, Vec<Case>)],
    parallel_size: usize,
    index: usize,
) -> (a: GroupAction)
    requires
        index < grouped@.len(),
        group_contexts_fit(grouped@, parallel_size),
    ensures
        final(failures)@ == after_failure(old(failures)@, grouped@[index as int].0, parallel_size),
        index + 1 < grouped@.len() ==> (a matches GroupAction::Skip { from_group, status, error }
            && from_group == index + 1 && status@ == "skipped_after_startup_limit"@ && error@
            == longer_skipped_error((grouped@[index as int].0 * parallel_size) as nat)),
        index + 1 >= grouped@.len() ==> a is Finish,
{
    let required = grouped[index].0;
    mark_failed(failures, required, parallel_size);
    if index + 1 < grouped.len() {
        assert(grouped@[index as int].0 * parallel_size <= usize::MAX);
        let ctx_size = required * parallel_size;
        let mut v: Vec<char> = Vec::new();
        extend_str(&mut v, "ctx=");
        push_decimal(&mut v, ctx_size);
        extend_str(&mut v, " 启动失败；按单调递增假设，更长上下文自动跳过");
        proof {
            assert(v@ =~= longer_skipped_error(ctx_size as nat));
        }
        GroupAction::Skip {
            from_group: index + 1,
            status: "skipped_after_startup_limit".to_owned(),
            error: string_of(&v),
        }
    } else {
        GroupAction::Finish
    }
}

// ---------------------------------------------------------------------
// Warm-up
// ---------------------------------------------------------------------

#[verifier::external_type_specification]
#[verifier::external_body]
pub struct ExThreadRng(rand::rngs::ThreadRng);

/// `rand::thread_rng`: the thread's generator.
#[verifier::external_body]
fn thread_generator() -> rand::rngs::ThreadRng {
    rand::thread_rng()
}

/// `SliceRandom::choose`: one of the cases, chosen at random; `None` only
/// for an empty slice (as rand documents).
#[verifier::external_body]
fn choose_case<'a>(cases: &'a [Case], rng: &mut rand::rngs::ThreadRng) -> (r: Option<&'a Case>)
    ensures
        r is None <==> cases@.len() == 0,
        r matches Some(c) ==> cases@.contains(*c),
{
    cases.choose(rng)
}

/// The warm-up case built from `base`.
pub fn warmup_case(base: &Case) -> (w: Case)
    ensures
        w.parallel_size == base.parallel_size,
        w.num_prompts == base.num_prompts,
        w.input_len == base.input_len,
        w.output_len == base.output_len,
        w.input_bucket@ == "warmup"@,
        w.output_bucket@ == "warmup"@,
        w.concurrency_bucket@ == "warmup"@,
{
    Case {
        parallel_size: base.parallel_size,
        num_prompts: base.num_prompts,
        input_len: base.input_len,
        output_len: base.output_len,
        input_bucket: "warmup".to_owned(),
        output_bucket: "warmup".to_owned(),
        concurrency_bucket: "warmup".to_owned(),
    }
}

/// Whether `w` is the warm-up case of `base`.
pub open spec fn warms_up(w: Case, base: Case) -> bool {
    &&& w.parallel_size == base.parallel_size
    &&& w.num_prompts == base.num_prompts
    &&& w.input_len == base.input_len
    &&& w.output_len == base.output_len
    &&& w.input_bucket@ == "warmup"@
    &&& w.output_bucket@ == "warmup"@
    &&& w.concurrency_bucket@ == "warmup"@
}

/// Whether `w` is the warm-up case of one of `cases`.
pub open spec fn warms_up_one_of(w: Case, cases: Seq<Case>) -> bool {
    exists|j: int| 0 <= j < cases.len() && warms_up(w, #[trigger] cases[j])
}

/// `count` warm-up cases, each built from a case of the group chosen at
/// random; none when the group is empty.
pub fn warmup_cases(cases: &[Case], count: usize) -> (out: Vec<Case>)
    ensures
        cases@.len() == 0 ==> out@.len() == 0,
        cases@.len() > 0 ==> out@.len() == count,
        forall|k: int| 0 <= k < out@.len() ==> warms_up_one_of(#[trigger] out@[k], cases@),
{
    let mut out: Vec<Case> = Vec::new();
    if cases.len() == 0 {
        return out;
    }
    let mut rng = thread_generator();
    let mut i: usize = 0;
    while i < count
        invariant
            i <= count,
            cases@.len() > 0,
            out@.len() == i,
            forall|k: int| 0 <= k < out@.len() ==> warms_up_one_of(#[trigger] out@[k], cases@),
        decreases count - i,
    {
        let picked = choose_case(cases, &mut rng);
        match picked {
            Some(base) => {
                let w = warmup_case(base);
                proof {
                    let j = choose|j: int| 0 <= j < cases@.len() && cases@[j] == *base;
                    assert(warms_up(w, cases@[j]));
                    assert(warms_up_one_of(w, cases@));
                }
                out.push(w);
            },
            None => {
                return out;
            },
        }
        i += 1;
    }
    out
}

// ---------------------------------------------------------------------
// File names and log lines
// ---------------------------------------------------------------------

/// The result log of one slot count: `{model}-{parallel}-{dtype}.log`.
pub open spec fn result_log_text(model: Seq<char>, parallel: usize, dtype: Seq<char>) -> Seq<char> {
    model + "-"@ + dec(parallel as nat) + "-"@ + dtype + ".log"@
}

/// The name of the result log of one slot count.
pub fn result_log_name(model_name: &str, parallel_size: usize, dtype: &str) -> (n: String)
    ensures
        n@ == result_log_text(model_name@, parallel_size, dtype@),
{
    let mut v: Vec<char> = Vec::new();
    extend_str(&mut v, model_name);
    extend_str(&mut v, "-");
    push_decimal(&mut v, parallel_size);
    extend_str(&mut v, "-");
    extend_str(&mut v, dtype);
    extend_str(&mut v, ".log");
    string_of(&v)
}

/// The server log of one start of the server:
/// `{model}-{parallel}-{dtype}-ctx{ctx}-attempt{attempt}-service.log`.
pub open spec fn service_log_text(model: Seq<char>, parallel: usize, dtype: Seq<char>, ctx: usize, attempt: usize) -> Seq<char> {
    model + "-"@ + dec(parallel as nat) + "-"@ + dtype + "-ctx"@ + dec(ctx as nat) + "-attempt"@ + dec(
        attempt as nat,
    ) + "-service.log"@
}

/// The name of the server log of one start of the server.
pub fn service_log_name(model_name: &str, parallel_size: usize, dtype: &str, ctx_size: usize, attempt: usize) -> (n: String)
    ensures
        n@ == service_log_text(model_name@, parallel_size, dtype@, ctx_size, attempt),
{
    let mut v: Vec<char> = Vec::new();
    extend_str(&mut v, model_name);
    extend_str(&mut v, "-");
    push_decimal(&mut v, parallel_size);
    extend_str(&mut v, "-");
    extend_str(&mut v, dtype);
    extend_str(&mut v, "-ctx");
    push_decimal(&mut v, ctx_size);
    extend_str(&mut v, "-attempt");
    push_decimal(&mut v, attempt);
    extend_str(&mut v, "-service.log");
    string_of(&v)
}

/// A file of the whole run: `{model}-{dtype}-{what}`.
pub open spec fn run_file_text(model: Seq<char>, dtype: Seq<char>, what: Seq<char>) -> Seq<char> {
    model + "-"@ + dtype + "-"@ + what
}

/// The name of a file of the whole run, such as its plan
/// (`matrix-plan.jsonl`) or summary (`matrix-summary.csv`).
pub fn run_file_name(model_name: &str, dtype: &str, what: &str) -> (n: String)
    ensures
        n@ == run_file_text(model_name@, dtype@, what@),
{
    let mut v: Vec<char> = Vec::new();
    extend_str(&mut v, model_name);
    extend_str(&mut v, "-");
    extend_str(&mut v, dtype);
    extend_str(&mut v, "-");
    extend_str(&mut v, what);
    string_of(&v)
}

/// The line that opens a run in a result log.
pub open spec fn run_marker_text(run_id: Seq<char>, started_at: Seq<char>, model: Seq<char>, dtype: Seq<char>) -> Seq<char> {
    "\n\n===== run_id="@ + run_id + " started_at="@ + started_at + " model="@ + model + " dtype="@ + dtype
        + " =====\n"@
}

/// The line that opens a run in a result log.
pub fn run_marker(run_id: &str, started_at: &str, model_name: &str, dtype: &str) -> (m: String)
    ensures
        m@ == run_marker_text(run_id@, started_at@, model_name@, dtype@),
{
    let mut v: Vec<char> = Vec::new();
    extend_str(&mut v, "\n\n===== run_id=");
    extend_str(&mut v, run_id);
    extend_str(&mut v, " started_at=");
    extend_str(&mut v, started_at);
    extend_str(&mut v, " model=");
    extend_str(&mut v, model_name);
    extend_str(&mut v, " dtype=");
    extend_str(&mut v, dtype);
    extend_str(&mut v, " =====\n");
    string_of(&v)
}

/// What the report collector looks for to find a run in a result log.
pub open spec fn run_search_key(run_id: Seq<char>) -> Seq<char> {
    "===== run_id="@ + run_id + " "@
}

/// The text the report collector looks for to find a run in a result log.
pub fn run_search_marker(run_id: &str) -> (m: String)
    ensures
        m@ == run_search_key(run_id@),
{
    let mut v: Vec<char> = Vec::new();
    extend_str(&mut v, "===== run_id=");
    extend_str(&mut v, run_id);
    extend_str(&mut v, " ");
    string_of(&v)
}

/// The line that opens a run holds the text the report collector looks
/// for, so the collector finds every run that was written.
pub proof fn law_run_marker_is_found(run_id: Seq<char>, started_at: Seq<char>, model: Seq<char>, dtype: Seq<char>)
    ensures
        contains_piece(run_marker_text(run_id, started_at, model, dtype), run_search_key(run_id)),
{
    let m = run_marker_text(run_id, started_at, model, dtype);
    let k = run_search_key(run_id);
    reveal_strlit("\n\n===== run_id=");
    reveal_strlit("===== run_id=");
    reveal_strlit(" started_at=");
    reveal_strlit(" ");
    assert(m.subrange(2, 2 + k.len() as int) =~= k);
}

/// The header written before a case in a result log.
pub open spec fn case_header_text(
    index: usize,
    total: usize,
    case_id: Seq<char>,
    ctx_size: usize,
    batch_size: usize,
    dtype: Seq<char>,
) -> Seq<char> {
    "\n\n******************************开始 "@ + dec(index as nat) + "/"@ + dec(total as nat) + " "@
        + case_id + " ctx="@ + dec(ctx_size as nat) + " batch="@ + dec(batch_size as nat) + " dtype="@
        + dtype + " 测试*******************************\n"@
}

/// The header written before case number `index` of `total`.
pub fn case_header(index: usize, total: usize, case: &Case, ctx_size: usize, batch_size: usize, dtype: &str) -> (h: String)
    ensures
        h@ == case_header_text(index, total, case.id_text(), ctx_size, batch_size, dtype@),
{
    let mut v: Vec<char> = Vec::new();
    extend_str(&mut v, "\n\n******************************开始 ");
    push_decimal(&mut v, index);
    extend_str(&mut v, "/");
    push_decimal(&mut v, total);
    extend_str(&mut v, " ");
    let id = case.case_id();
    extend_str(&mut v, id.as_str());
    extend_str(&mut v, " ctx=");
    push_decimal(&mut v, ctx_size);
    extend_str(&mut v, " batch=");
    push_decimal(&mut v, batch_size);
    extend_str(&mut v, " dtype=");
    extend_str(&mut v, dtype);
    extend_str(&mut v, " 测试*******************************\n");
    string_of(&v)
}

/// The status line recorded for a case: `status={status} error={error}`,
/// the error summarised.
pub fn status_line(status: &str, error: &str) -> (l: String)
    ensures
        l@ == "status="@ + status@ + " error="@ + error_summary(error@),
{
    let mut v: Vec<char> = Vec::new();
    extend_str(&mut v, "status=");
    extend_str(&mut v, status);
    extend_str(&mut v, " error=");
    let e = normalize_error(error);
    extend_str(&mut v, e.as_str());
    string_of(&v)
}

/// The cases of the plan that use `parallel_size` slots, in plan order.
pub open spec fn cases_with_slots(cases: Seq<Case>, parallel_size: usize) -> Seq<Case> {
    cases.filter(|c: Case| c.parallel_size == parallel_size)
}

/// The cases of the plan that use `parallel_size` slots, in plan order.
pub fn cases_for_parallel(cases: &[Case], parallel_size: usize) -> (out: Vec<Case>)
    ensures
        out@ == cases_with_slots(cases@, parallel_size),
{
    let mut out: Vec<Case> = Vec::new();
    let mut i: usize = 0;
    while i < cases.len()
        invariant
            i <= cases@.len(),
            out@ == cases_with_slots(cases@.take(i as int), parallel_size),
        decreases cases.len() - i,
    {
        proof {
            assert(cases@.take(i + 1).drop_last() =~= cases@.take(i as int));
            reveal(Seq::filter);
        }
        if cases[i].parallel_size == parallel_size {
            out.push(cases[i].duplicate());
        }
        i += 1;
    }
    proof {
        assert(cases@.take(cases@.len() as int) =~= cases@);
    }
    out
}

/// The status of a finished case: `server_crashed` whenever the server had
/// exited (with the log tail as the error when the benchmark itself went
/// through); otherwise `case_exception` with the benchmark's error when it
/// failed, `case_failed` only when requests failed and none succeeded, and
/// `completed` with no error in every other case, so a case in which any
/// request succeeded is completed.
pub proof fn law_case_status(bench: Result<(usize, usize), Seq<char>>, server_exited: bool, tail: Seq<char>)
    ensures
        server_exited ==> outcome(bench, server_exited, tail).0 == "server_crashed"@,
        server_exited ==> (bench is Ok ==> outcome(bench, server_exited, tail).1 == tail),
        forall|successful: usize, failed: usize|
            !server_exited && bench == Ok::<(usize, usize), Seq<char>>((successful, failed)) ==> {
                &&& successful > 0 ==> outcome(bench, server_exited, tail) == ("completed"@, Seq::<char>::empty())
                &&& failed == 0 ==> outcome(bench, server_exited, tail) == ("completed"@, Seq::<char>::empty())
                &&& successful == 0 && failed > 0 ==> outcome(bench, server_exited, tail) == (
                    "case_failed"@,
                    "all requests failed"@,
                )
            },
        forall|e: Seq<char>|
            !server_exited && bench == Err::<(usize, usize), Seq<char>>(e) ==> outcome(bench, server_exited, tail)
                == ("case_exception"@, e),
{
    reveal_strlit("");
}

} // verus!
