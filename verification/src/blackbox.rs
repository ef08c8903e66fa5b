//! The GPU black box: what its collectors make of command output, when a
//! trigger leads to an incident capture, and the names it gives a run.
use vstd::prelude::*;
use crate::text::{
    chars_of, contains_chars, contains_piece, extend_chars, join, join_chars,
    lines, lines_of, lowered, string_of, strip_ansi_escape_sequences, to_lowercase, trim,
    trim_chars, views, without_ansi, words, words_of,
};
use crate::text::{regex_find, regex_first_match};

verus! {

/// Something a collector saw that should lead to an incident capture.
#[derive(Clone, Debug)]
pub struct TriggerEvent {
    /// The collector that saw it.
    pub source: String,
    /// What it saw.
    pub line: String,
}

// ---------------------------------------------------------------------
// Error-looking output
// ---------------------------------------------------------------------

/// Whether command output looks like an error: its lowercase form mentions
/// `err`, `unknown error`, `unable to determine`, `failed to initialize
/// nvml`, `no devices were found` or `has fallen off`.
pub open spec fn mentions_error(text: Seq<char>) -> bool {
    let l = lowered(text);
    ||| contains_piece(l, "err"@)
    ||| contains_piece(l, "unknown error"@)
    ||| contains_piece(l, "unable to determine"@)
    ||| contains_piece(l, "failed to initialize nvml"@)
    ||| contains_piece(l, "no devices were found"@)
    ||| contains_piece(l, "has fallen off"@)
}

/// Whether `v` holds the text `t` as a contiguous piece.
fn holds(v: &Vec<char>, t: &str) -> (r: bool)
    ensures
        r == contains_piece(v@, t@),
{
    let tv = chars_of(t);
    contains_chars(v, &tv)
}

/// Whether command output looks like an error (see `mentions_error`).
pub fn looks_like_error(text: &str) -> (r: bool)
    ensures
        r == mentions_error(text@),
{
    let lower = to_lowercase(text);
    let l = chars_of(lower.as_str());
    holds(&l, "err") || holds(&l, "unknown error") || holds(&l, "unable to determine") || holds(
        &l,
        "failed to initialize nvml",
    ) || holds(&l, "no devices were found") || holds(&l, "has fallen off")
}

// ---------------------------------------------------------------------
// Collector rows
// ---------------------------------------------------------------------

/// `now`, a comma and `row`, ending the line.
pub open spec fn stamped(now: Seq<char>, row: Seq<char>) -> Seq<char> {
    now + ","@ + row + "\n"@
}

/// The GPU metric rows of query output: each line that is not blank,
/// stamped with the collection time.
pub open spec fn metric_rows(ls: Seq<Seq<char>>, now: Seq<char>) -> Seq<char>
    decreases ls.len(),
{
    if ls.len() == 0 {
        Seq::empty()
    } else {
        metric_rows(ls.drop_last(), now) + if trim(ls.last()).len() > 0 {
            stamped(now, ls.last())
        } else {
            Seq::empty()
        }
    }
}

/// The rows the GPU metrics collector records of one query's output.
pub fn gpu_metric_rows(text: &str, now: &str) -> (rows: String)
    ensures
        rows@ == metric_rows(lines(text@), now@),
{
    let tv = chars_of(text);
    let ls = lines_of(&tv);
    let nv = chars_of(now);
    let mut out: Vec<char> = Vec::new();
    let mut i: usize = 0;
    while i < ls.len()
        invariant
            i <= ls@.len(),
            views(ls@) == lines(text@),
            nv@ == now@,
            out@ == metric_rows(views(ls@).take(i as int), now@),
        decreases ls.len() - i,
    {
        proof {
            assert(views(ls@).take(i + 1).drop_last() =~= views(ls@).take(i as int));
            assert(views(ls@).take(i + 1).last() == ls@[i as int]@);
        }
        let t = trim_chars(&ls[i]);
        if t.len() > 0 {
            extend_chars(&mut out, &nv);
            out.push(',');
            extend_chars(&mut out, &ls[i]);
            out.push('\n');
            proof {
                reveal_strlit(",");
                reveal_strlit("\n");
                assert(out@ =~= metric_rows(views(ls@).take(i as int), now@) + stamped(now@, ls@[i as int]@));
            }
        } else {
            proof {
                assert(metric_rows(views(ls@).take(i + 1), now@) =~= metric_rows(views(ls@).take(i as int), now@));
            }
        }
        i += 1;
    }
    proof {
        assert(views(ls@).take(ls@.len() as int) =~= views(ls@));
    }
    string_of(&out)
}

/// Whether a trimmed line of the compute-apps query describes a process:
/// it is not empty and does not say there are no running processes.
pub open spec fn names_process(trimmed: Seq<char>) -> bool {
    trimmed.len() > 0 && !contains_piece(lowered(trimmed), "no running processes"@)
}

/// The compute-app rows of query output: each line, trimmed, that names
/// a process, stamped with the collection time.
pub open spec fn app_rows(ls: Seq<Seq<char>>, now: Seq<char>) -> Seq<char>
    decreases ls.len(),
{
    if ls.len() == 0 {
        Seq::empty()
    } else {
        app_rows(ls.drop_last(), now) + if names_process(trim(ls.last())) {
            stamped(now, trim(ls.last()))
        } else {
            Seq::empty()
        }
    }
}

/// The rows the compute-apps collector records of one query's output.
pub fn compute_app_rows(text: &str, now: &str) -> (rows: String)
    ensures
        rows@ == app_rows(lines(text@), now@),
{
    let tv = chars_of(text);
    let ls = lines_of(&tv);
    let nv = chars_of(now);
    let mut out: Vec<char> = Vec::new();
    let mut i: usize = 0;
    while i < ls.len()
        invariant
            i <= ls@.len(),
            views(ls@) == lines(text@),
            nv@ == now@,
            out@ == app_rows(views(ls@).take(i as int), now@),
        decreases ls.len() - i,
    {
        proof {
            assert(views(ls@).take(i + 1).drop_last() =~= views(ls@).take(i as int));
            assert(views(ls@).take(i + 1).last() == ls@[i as int]@);
        }
        let t = trim_chars(&ls[i]);
        let keep = if t.len() > 0 {
            let ts = string_of(&t);
            let lower = to_lowercase(ts.as_str());
            let lv = chars_of(lower.as_str());
            !holds(&lv, "no running processes")
        } else {
            false
        };
        if keep {
            extend_chars(&mut out, &nv);
            out.push(',');
            extend_chars(&mut out, &t);
            out.push('\n');
            proof {
                reveal_strlit(",");
                reveal_strlit("\n");
                assert(out@ =~= app_rows(views(ls@).take(i as int), now@) + stamped(now@, t@));
            }
        } else {
            proof {
                assert(app_rows(views(ls@).take(i + 1), now@) =~= app_rows(views(ls@).take(i as int), now@));
            }
        }
        i += 1;
    }
    proof {
        assert(views(ls@).take(ls@.len() as int) =~= views(ls@));
    }
    string_of(&out)
}

/// The row of a line of `nvidia-smi dmon -s t` output: none for a blank
/// line, a `#` comment, or fewer than three fields; else the GPU index
/// and the two throughputs, stamped with the collection time.
pub open spec fn dmon_row_of(line: Seq<char>, now: Seq<char>) -> Option<Seq<char>> {
    let t = trim(line);
    let p = words(t);
    if t.len() == 0 || t[0] == '#' || p.len() < 3 {
        None
    } else {
        Some(stamped(now, p[0] + ","@ + p[1] + ","@ + p[2]))
    }
}

/// The row the PCIe throughput collector records of one `dmon` line.
pub fn dmon_row(line: &str, now: &str) -> (r: Option<String>)
    ensures
        match r {
            Some(s) => Some(s@),
            None => None,
        } == dmon_row_of(line@, now@),
{
    let lv = chars_of(line);
    let t = trim_chars(&lv);
    if t.len() == 0 || t[0] == '#' {
        return None;
    }
    let p = words_of(&t);
    if p.len() < 3 {
        return None;
    }
    let mut out = chars_of(now);
    out.push(',');
    extend_chars(&mut out, &p[0]);
    out.push(',');
    extend_chars(&mut out, &p[1]);
    out.push(',');
    extend_chars(&mut out, &p[2]);
    out.push('\n');
    proof {
        reveal_strlit(",");
        reveal_strlit("\n");
        assert(views(p@)[0] == p@[0]@);
        assert(views(p@)[1] == p@[1]@);
        assert(views(p@)[2] == p@[2]@);
        assert(out@ =~= stamped(now@, p@[0]@ + ","@ + p@[1]@ + ","@ + p@[2]@));
    }
    Some(string_of(&out))
}

/// The PCIe AER rows of the counter script's output: each line of exactly
/// four fields (address and the three totals), stamped with the time.
pub open spec fn aer_rows_of(ls: Seq<Seq<char>>, now: Seq<char>) -> Seq<char>
    decreases ls.len(),
{
    if ls.len() == 0 {
        Seq::empty()
    } else {
        let p = words(ls.last());
        aer_rows_of(ls.drop_last(), now) + if p.len() == 4 {
            stamped(now, p[0] + ","@ + p[1] + ","@ + p[2] + ","@ + p[3])
        } else {
            Seq::empty()
        }
    }
}

/// The rows the PCIe AER collector records of one run of its script.
pub fn aer_rows(text: &str, now: &str) -> (rows: String)
    ensures
        rows@ == aer_rows_of(lines(text@), now@),
{
    let tv = chars_of(text);
    let ls = lines_of(&tv);
    let nv = chars_of(now);
    let mut out: Vec<char> = Vec::new();
    let mut i: usize = 0;
    while i < ls.len()
        invariant
            i <= ls@.len(),
            views(ls@) == lines(text@),
            nv@ == now@,
            out@ == aer_rows_of(views(ls@).take(i as int), now@),
        decreases ls.len() - i,
    {
        proof {
            assert(views(ls@).take(i + 1).drop_last() =~= views(ls@).take(i as int));
            assert(views(ls@).take(i + 1).last() == ls@[i as int]@);
        }
        let p = words_of(&ls[i]);
        if p.len() == 4 {
            extend_chars(&mut out, &nv);
            out.push(',');
            extend_chars(&mut out, &p[0]);
            out.push(',');
            extend_chars(&mut out, &p[1]);
            out.push(',');
            extend_chars(&mut out, &p[2]);
            out.push(',');
            extend_chars(&mut out, &p[3]);
            out.push('\n');
            proof {
                reveal_strlit(",");
                reveal_strlit("\n");
                assert(views(p@)[0] == p@[0]@);
                assert(views(p@)[1] == p@[1]@);
                assert(views(p@)[2] == p@[2]@);
                assert(views(p@)[3] == p@[3]@);
                assert(out@ =~= aer_rows_of(views(ls@).take(i as int), now@) + stamped(
                    now@,
                    p@[0]@ + ","@ + p@[1]@ + ","@ + p@[2]@ + ","@ + p@[3]@,
                ));
            }
        } else {
            proof {
                assert(aer_rows_of(views(ls@).take(i + 1), now@) =~= aer_rows_of(views(ls@).take(i as int), now@));
            }
        }
        i += 1;
    }
    proof {
        assert(views(ls@).take(ls@.len() as int) =~= views(ls@));
    }
    string_of(&out)
}

// ---------------------------------------------------------------------
// Topology
// ---------------------------------------------------------------------

/// A topology listing reduced for comparison: ANSI sequences removed and
/// the words joined with single spaces.
pub open spec fn normalized_topology(text: Seq<char>) -> Seq<char> {
    join(words(without_ansi(text)), " "@)
}

/// A topology listing reduced for comparison.
pub fn normalize_topo(text: &str) -> (s: String)
    ensures
        s@ == normalized_topology(text@),
{
    let stripped = strip_ansi_escape_sequences(text);
    let sv = chars_of(stripped.as_str());
    let ws = words_of(&sv);
    let sep = chars_of(" ");
    let joined = join_chars(&ws, &sep);
    string_of(&joined)
}

/// Whether the current topology differs from a recorded, non-empty one
/// (both compared in reduced form).
pub fn topology_changed(normalized_baseline: &str, current: &str) -> (r: bool)
    ensures
        r == (normalized_baseline@.len() > 0 && normalized_topology(current@) != normalized_baseline@),
{
    if normalized_baseline.unicode_len() == 0 {
        return false;
    }
    let n = normalize_topo(current);
    let a = chars_of(n.as_str());
    let b = chars_of(normalized_baseline);
    !crate::text::chars_eq(&a, &b)
}

// ---------------------------------------------------------------------
// Triggers and runs
// ---------------------------------------------------------------------

/// What the incident loop does on one tick.
#[derive(Clone, Copy, Debug, PartialEq, Eq, Structural)]
pub enum TriggerDecision {
    /// Nothing triggered.
    Idle,
    /// Capture an incident now.
    Capture,
    /// A trigger came within the cooldown of the last capture; drop it.
    Suppress,
}

/// The decision of one tick: a trigger leads to a capture unless the last
/// capture was fewer than `cooldown` seconds ago.
pub open spec fn decision_of(triggered: bool, seconds_since_capture: Option<u64>, cooldown: u64) -> TriggerDecision {
    if !triggered {
        TriggerDecision::Idle
    } else {
        match seconds_since_capture {
            Some(s) => if s >= cooldown { TriggerDecision::Capture } else { TriggerDecision::Suppress },
            None => TriggerDecision::Capture,
        }
    }
}

/// The decision of one tick of the incident loop, given whether something
/// triggered and how long ago the last capture was (`None`: no capture yet).
pub fn trigger_decision(triggered: bool, seconds_since_capture: Option<u64>, cooldown: u64) -> (d: TriggerDecision)
    ensures
        d == decision_of(triggered, seconds_since_capture, cooldown),
{
    if !triggered {
        return TriggerDecision::Idle;
    }
    match seconds_since_capture {
        Some(s) => if s >= cooldown { TriggerDecision::Capture } else { TriggerDecision::Suppress },
        None => TriggerDecision::Capture,
    }
}

/// A character that may stay in a run name: ASCII letters and digits,
/// `_`, `.` and `-`.
pub open spec fn name_char(c: char) -> bool {
    ||| ('a' <= c && c <= 'z')
    ||| ('A' <= c && c <= 'Z')
    ||| ('0' <= c && c <= '9')
    ||| c == '_'
    ||| c == '.'
    ||| c == '-'
}

/// `host` with every character that may not stay in a run name replaced
/// by `_`.
pub open spec fn safe_host(host: Seq<char>) -> Seq<char> {
    Seq::new(host.len(), |i: int| if name_char(host[i]) { host[i] } else { '_' })
}

/// The name of a black-box run: the start time, `-`, and the host name
/// made safe for a directory name.
pub fn blackbox_run_id(file_time: &str, host: &str) -> (id: String)
    ensures
        id@ == file_time@ + "-"@ + safe_host(host@),
{
    let hv = chars_of(host);
    let mut out = chars_of(file_time);
    out.push('-');
    let ghost head = out@;
    let mut i: usize = 0;
    while i < hv.len()
        invariant
            i <= hv@.len(),
            hv@ == host@,
            out@ == head + safe_host(host@).take(i as int),
        decreases hv.len() - i,
    {
        let c = hv[i];
        let keep = ('a' <= c && c <= 'z') || ('A' <= c && c <= 'Z') || ('0' <= c && c <= '9') || c
            == '_' || c == '.' || c == '-';
        if keep {
            out.push(c);
        } else {
            out.push('_');
        }
        proof {
            assert(safe_host(host@).take(i + 1) =~= safe_host(host@).take(i as int).push(
                safe_host(host@)[i as int],
            ));
        }
        i += 1;
    }
    proof {
        reveal_strlit("-");
        assert(safe_host(host@).take(hv@.len() as int) =~= safe_host(host@));
        assert(out@ =~= file_time@ + "-"@ + safe_host(host@));
    }
    string_of(&out)
}

/// Whether `line` holds a match of the trigger pattern; `None` when the
/// pattern does not compile.
pub fn line_triggers(pattern: &str, line: &str) -> (r: Option<bool>)
    ensures
        r == match regex_first_match(pattern@, line@) {
            Some(m) => Some(m is Some),
            None => None::<bool>,
        },
{
    match regex_find(pattern, line) {
        Some(Some(_)) => Some(true),
        Some(None) => Some(false),
        None => None,
    }
}

} // verus!
