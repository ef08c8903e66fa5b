//! Small text formats: durations, error summaries, and the tail of a log.
use vstd::prelude::*;
use crate::text::{
    chars_of, dec, extend_str, join, join_chars, lines, lines_of, push_decimal_u64, string_of,
    views, words, words_of,
};

verus! {

/// Two decimal digits of `n < 100`, with a leading zero below 10.
pub open spec fn two_digits(n: nat) -> Seq<char> {
    if n < 10 {
        "0"@ + dec(n)
    } else {
        dec(n)
    }
}

/// A duration in whole seconds as text: `{h}h{mm}m` from an hour on,
/// `{m}m{ss}s` from a minute on, else `{s}s`.
pub open spec fn duration_text(seconds: nat) -> Seq<char> {
    let hours = seconds / 3600;
    let minutes = (seconds % 3600) / 60;
    let secs = seconds % 60;
    if hours > 0 {
        dec(hours) + "h"@ + two_digits(minutes) + "m"@
    } else if minutes > 0 {
        dec(minutes) + "m"@ + two_digits(secs) + "s"@
    } else {
        dec(secs) + "s"@
    }
}

fn push_two_digits(v: &mut Vec<char>, n: u64)
    requires
        n < 100,
    ensures
        final(v)@ == old(v)@ + two_digits(n as nat),
{
    if n < 10 {
        extend_str(v, "0");
    }
    let ghost mid = v@;
    push_decimal_u64(v, n);
    proof {
        if n < 10 {
            assert(v@ =~= old(v)@ + ("0"@ + dec(n as nat)));
        }
    }
}

/// A duration in whole seconds as text, such as `45s`, `2m05s` or `1h01m`.
pub fn format_seconds(seconds: u64) -> (s: String)
    ensures
        s@ == duration_text(seconds as nat),
{
    let hours = seconds / 3600;
    let minutes = (seconds % 3600) / 60;
    let secs = seconds % 60;
    let mut v: Vec<char> = Vec::new();
    if hours > 0 {
        push_decimal_u64(&mut v, hours);
        extend_str(&mut v, "h");
        push_two_digits(&mut v, minutes);
        extend_str(&mut v, "m");
    } else if minutes > 0 {
        push_decimal_u64(&mut v, minutes);
        extend_str(&mut v, "m");
        push_two_digits(&mut v, secs);
        extend_str(&mut v, "s");
    } else {
        push_decimal_u64(&mut v, secs);
        extend_str(&mut v, "s");
    }
    proof {
        let e = Seq::<char>::empty();
        if hours > 0 {
            assert(v@ =~= e + dec(hours as nat) + "h"@ + two_digits(minutes as nat) + "m"@);
        } else if minutes > 0 {
            assert(v@ =~= e + dec(minutes as nat) + "m"@ + two_digits(secs as nat) + "s"@);
        } else {
            assert(v@ =~= e + dec(secs as nat) + "s"@);
        }
    }
    string_of(&v)
}

/// The longest error summary kept, in characters.
pub const ERROR_SUMMARY_CHARS: usize = 500;

/// An error summary: the words of the text separated by single spaces, cut
/// to its first 500 characters.
pub open spec fn error_summary(error: Seq<char>) -> Seq<char> {
    let j = join(words(error), " "@);
    if j.len() <= ERROR_SUMMARY_CHARS {
        j
    } else {
        j.take(ERROR_SUMMARY_CHARS as int)
    }
}

/// The words of `error` separated by single spaces, cut to its first 500
/// characters.
pub fn normalize_error(error: &str) -> (s: String)
    ensures
        s@ == error_summary(error@),
{
    let v = chars_of(error);
    let ws = words_of(&v);
    let sp = chars_of(" ");
    let j = join_chars(&ws, &sp);
    if j.len() <= ERROR_SUMMARY_CHARS {
        return string_of(&j);
    }
    let mut out: Vec<char> = Vec::new();
    let mut i: usize = 0;
    while i < ERROR_SUMMARY_CHARS
        invariant
            i <= ERROR_SUMMARY_CHARS < j@.len(),
            out@ == j@.take(i as int),
        decreases ERROR_SUMMARY_CHARS - i,
    {
        out.push(j[i]);
        proof {
            assert(j@.take(i + 1) =~= j@.take(i as int).push(j@[i as int]));
        }
        i += 1;
    }
    string_of(&out)
}

/// The last `n` lines of a text (all of them when there are fewer),
/// joined with `\n`.
pub open spec fn last_lines(text: Seq<char>, n: nat) -> Seq<char> {
    let ls = lines(text);
    let k = if n < ls.len() {
        n
    } else {
        ls.len()
    };
    join(ls.subrange(ls.len() - k, ls.len() as int), "\n"@)
}

/// The last `n` lines of `text`, joined with `\n`.
pub fn tail_lines(text: &str, n: usize) -> (s: String)
    ensures
        s@ == last_lines(text@, n as nat),
{
    let v = chars_of(text);
    let ls = lines_of(&v);
    let k = if n < ls.len() { n } else { ls.len() };
    let mut sel: Vec<Vec<char>> = Vec::new();
    let mut i: usize = ls.len() - k;
    let ghost lsv = views(ls@);
    while i < ls.len()
        invariant
            k <= ls.len(),
            ls.len() - k <= i <= ls.len(),
            lsv == views(ls@),
            views(sel@) =~= lsv.subrange(ls.len() - k, i as int),
        decreases ls.len() - i,
    {
        let ghost before = views(sel@);
        let line = ls[i].clone();
        sel.push(line);
        proof {
            assert(views(sel@) =~= before.push(lsv[i as int]));
            assert(lsv.subrange(ls.len() - k, i + 1) =~= lsv.subrange(ls.len() - k, i as int).push(
                lsv[i as int],
            ));
        }
        i += 1;
    }
    let nl = chars_of("\n");
    let j = join_chars(&sel, &nl);
    string_of(&j)
}

} // verus!
