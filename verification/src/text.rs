//! Character-level text handling: the string operations that the rest of
//! the library is specified in terms of.
use vstd::prelude::*;

verus! {

// ---------------------------------------------------------------------
// Specifications
// ---------------------------------------------------------------------

/// The Unicode `White_Space` property, which `char::is_whitespace` tests.
pub open spec fn is_ws(c: char) -> bool {
    let u = c as u32;
    ||| u == 0x20
    ||| (0x09 <= u && u <= 0x0d)
    ||| u == 0x85
    ||| u == 0xa0
    ||| u == 0x1680
    ||| (0x2000 <= u && u <= 0x200a)
    ||| u == 0x2028
    ||| u == 0x2029
    ||| u == 0x202f
    ||| u == 0x205f
    ||| u == 0x3000
}

/// An ASCII decimal digit.
pub open spec fn is_digit(c: char) -> bool {
    0x30 <= (c as u32) && (c as u32) <= 0x39
}

/// The value of an ASCII decimal digit.
pub open spec fn digit_value(c: char) -> nat {
    ((c as u32) - 0x30) as nat
}

/// The ASCII digit for `d < 10`.
pub open spec fn digit_char(d: nat) -> char {
    (0x30 + d) as char
}

/// The decimal representation of `n`, without sign or leading zeros.
pub open spec fn dec(n: nat) -> Seq<char>
    decreases n,
{
    if n < 10 {
        seq![digit_char(n)]
    } else {
        dec(n / 10).push(digit_char(n % 10))
    }
}

/// `s` with its leading whitespace removed.
pub open spec fn trim_start(s: Seq<char>) -> Seq<char>
    decreases s.len(),
{
    if s.len() > 0 && is_ws(s[0]) {
        trim_start(s.drop_first())
    } else {
        s
    }
}

/// `s` with its trailing whitespace removed.
pub open spec fn trim_end(s: Seq<char>) -> Seq<char>
    decreases s.len(),
{
    if s.len() > 0 && is_ws(s.last()) {
        trim_end(s.drop_last())
    } else {
        s
    }
}

/// `s` with leading and trailing whitespace removed (`str::trim`).
pub open spec fn trim(s: Seq<char>) -> Seq<char> {
    trim_end(trim_start(s))
}

/// `s` with every `from` replaced by `to`.
pub open spec fn replace_char(s: Seq<char>, from: char, to: char) -> Seq<char> {
    Seq::new(s.len(), |i: int| if s[i] == from { to } else { s[i] })
}

/// `s` with every occurrence of `c` deleted.
pub open spec fn remove_char(s: Seq<char>, c: char) -> Seq<char>
    decreases s.len(),
{
    if s.len() == 0 {
        s
    } else if s.last() == c {
        remove_char(s.drop_last(), c)
    } else {
        remove_char(s.drop_last(), c).push(s.last())
    }
}

/// The pieces of `s` between occurrences of `sep` (`str::split` with a char).
pub open spec fn split_on(s: Seq<char>, sep: char) -> Seq<Seq<char>>
    decreases s.len(),
{
    if s.len() == 0 {
        seq![Seq::empty()]
    } else {
        let r = split_on(s.drop_last(), sep);
        if s.last() == sep {
            r.push(Seq::empty())
        } else {
            r.update(r.len() - 1, r.last().push(s.last()))
        }
    }
}

/// The maximal runs of non-whitespace characters of `s` (`str::split_whitespace`).
pub open spec fn words(s: Seq<char>) -> Seq<Seq<char>>
    decreases s.len(),
{
    if s.len() == 0 {
        Seq::empty()
    } else {
        let w = words(s.drop_last());
        let c = s.last();
        if is_ws(c) {
            w
        } else if s.len() >= 2 && !is_ws(s[s.len() - 2]) {
            w.update(w.len() - 1, w.last().push(c))
        } else {
            w.push(seq![c])
        }
    }
}

/// The pieces concatenated with `sep` between neighbours (`slice::join`).
pub open spec fn join(parts: Seq<Seq<char>>, sep: Seq<char>) -> Seq<char>
    decreases parts.len(),
{
    if parts.len() == 0 {
        Seq::empty()
    } else if parts.len() == 1 {
        parts[0]
    } else {
        join(parts.drop_last(), sep) + sep + parts.last()
    }
}

/// `s` without one trailing carriage return.
pub open spec fn strip_cr(s: Seq<char>) -> Seq<char> {
    if s.len() > 0 && s.last() == '\r' {
        s.drop_last()
    } else {
        s
    }
}

/// The lines of `s` (`str::lines`): pieces between `\n`, a `\r` before a `\n`
/// dropped, and no empty piece after a final `\n`.
pub open spec fn lines(s: Seq<char>) -> Seq<Seq<char>> {
    let p = split_on(s, '\n');
    let body = p.drop_last().map_values(|x: Seq<char>| strip_cr(x));
    if p.last().len() == 0 {
        body
    } else {
        body.push(p.last())
    }
}

/// The character sequences held by a vector of character vectors.
pub open spec fn views(v: Seq<Vec<char>>) -> Seq<Seq<char>> {
    Seq::new(v.len(), |i: int| v[i]@)
}

/// The text before the first `c` in `s` and the text after it (`str::split_once`).
pub open spec fn split_once(s: Seq<char>, c: char) -> (Seq<char>, Seq<char>)
    decreases s.len(),
{
    if s.len() == 0 {
        (s, s)
    } else if s[0] == c {
        (Seq::empty(), s.drop_first())
    } else {
        let r = split_once(s.drop_first(), c);
        (seq![s[0]] + r.0, r.1)
    }
}

/// `p` is a prefix of `s`.
pub open spec fn starts_with(s: Seq<char>, p: Seq<char>) -> bool {
    p.len() <= s.len() && s.subrange(0, p.len() as int) == p
}

/// `n` occurs in `s` as a contiguous piece.
pub open spec fn contains_piece(s: Seq<char>, n: Seq<char>) -> bool {
    exists|i: int| 0 <= i && i + n.len() <= s.len() && #[trigger] s.subrange(i, i + n.len()) == n
}

/// The kinds of failure of parsing an unsigned integer, as `core::num::IntErrorKind`.
#[derive(Clone, Copy, Debug, PartialEq, Eq, Structural)]
pub enum IntErrorKind {
    /// The text is empty.
    Empty,
    /// A character is not a decimal digit.
    InvalidDigit,
    /// The value does not fit in `usize`.
    PosOverflow,
}

/// Accumulation of decimal digits onto `acc`, scanning left to right and
/// failing at the first non-digit or at the first overflow of `usize`.
pub open spec fn scan_digits(d: Seq<char>, acc: nat) -> Result<nat, IntErrorKind>
    decreases d.len(),
{
    if d.len() == 0 {
        Ok(acc)
    } else if !is_digit(d[0]) {
        Err(IntErrorKind::InvalidDigit)
    } else if acc * 10 + digit_value(d[0]) > usize::MAX {
        Err(IntErrorKind::PosOverflow)
    } else {
        scan_digits(d.drop_first(), acc * 10 + digit_value(d[0]))
    }
}

/// The result of `usize::from_str`: an optional `+`, then at least one digit.
pub open spec fn parse_usize(s: Seq<char>) -> Result<usize, IntErrorKind> {
    if s.len() == 0 {
        Err(IntErrorKind::Empty)
    } else {
        let d = if s[0] == '+' { s.drop_first() } else { s };
        if d.len() == 0 {
            Err(IntErrorKind::InvalidDigit)
        } else {
            match scan_digits(d, 0) {
                Ok(v) => Ok(v as usize),
                Err(e) => Err(e),
            }
        }
    }
}

// ---------------------------------------------------------------------
// Lemmas
// ---------------------------------------------------------------------

pub proof fn lemma_split_on_nonempty(s: Seq<char>, sep: char)
    ensures
        split_on(s, sep).len() >= 1,
    decreases s.len(),
{
    if s.len() > 0 {
        lemma_split_on_nonempty(s.drop_last(), sep);
    }
}

pub proof fn lemma_words_last(s: Seq<char>)
    ensures
        s.len() > 0 && !is_ws(s.last()) ==> words(s).len() >= 1,
    decreases s.len(),
{
    if s.len() > 0 {
        lemma_words_last(s.drop_last());
    }
}

proof fn lemma_split_once_at(s: Seq<char>, c: char, k: int)
    requires
        0 <= k < s.len(),
        s[k] == c,
        forall|j: int| 0 <= j < k ==> s[j] != c,
    ensures
        split_once(s, c) == (s.take(k), s.skip(k + 1)),
    decreases k,
{
    if k > 0 {
        lemma_split_once_at(s.drop_first(), c, k - 1);
        assert(seq![s[0]] + s.drop_first().take(k - 1) =~= s.take(k));
        assert(s.drop_first().skip(k) =~= s.skip(k + 1));
    } else {
        assert(s.take(0) =~= Seq::<char>::empty());
        assert(s.drop_first() =~= s.skip(1));
    }
}

proof fn lemma_join_step(parts: Seq<Seq<char>>, sep: Seq<char>, i: int)
    requires
        0 <= i < parts.len(),
    ensures
        join(parts.take(i + 1), sep) == if i == 0 {
            parts[0]
        } else {
            join(parts.take(i), sep) + sep + parts[i]
        },
{
    assert(parts.take(i + 1).drop_last() =~= parts.take(i));
}

proof fn lemma_scan_bounded(d: Seq<char>, acc: nat)
    ensures
        scan_digits(d, acc) matches Ok(v) ==> v <= usize::MAX || (d.len() == 0 && v == acc),
    decreases d.len(),
{
    if d.len() > 0 && is_digit(d[0]) && acc * 10 + digit_value(d[0]) <= usize::MAX {
        lemma_scan_bounded(d.drop_first(), acc * 10 + digit_value(d[0]));
    }
}

// ---------------------------------------------------------------------
// Executable operations
// ---------------------------------------------------------------------

/// Appends `c` to `s` (`String::push`).
#[verifier::external_body]
fn string_push(s: &mut String, c: char)
    ensures
        final(s)@ == old(s)@.push(c),
{
    s.push(c);
}

/// The characters of `s`.
pub fn chars_of(s: &str) -> (out: Vec<char>)
    ensures
        out@ == s@,
{
    let mut out: Vec<char> = Vec::new();
    for c in it: s.chars()
        invariant
            it.seq() == s@,
            out@ == it.seq().take(it.index() as int),
    {
        out.push(c);
    }
    out
}

/// A string holding the characters of `v`.
pub fn string_of(v: &Vec<char>) -> (out: String)
    ensures
        out@ == v@,
{
    let mut out = String::new();
    let mut i: usize = 0;
    while i < v.len()
        invariant
            i <= v.len(),
            out@ == v@.take(i as int),
        decreases v.len() - i,
    {
        string_push(&mut out, v[i]);
        proof {
            assert(v@.take(i + 1) =~= v@.take(i as int).push(v@[i as int]));
        }
        i += 1;
    }
    proof {
        assert(v@.take(v.len() as int) =~= v@);
    }
    out
}

/// Appends the characters of `t` to `v`.
pub fn extend_chars(v: &mut Vec<char>, t: &Vec<char>)
    ensures
        final(v)@ == old(v)@ + t@,
{
    let mut i: usize = 0;
    while i < t.len()
        invariant
            i <= t.len(),
            v@ == old(v)@ + t@.take(i as int),
        decreases t.len() - i,
    {
        v.push(t[i]);
        proof {
            assert(t@.take(i + 1) =~= t@.take(i as int).push(t@[i as int]));
        }
        i += 1;
    }
    proof {
        assert(t@.take(t.len() as int) =~= t@);
    }
}

/// Appends the characters of `t` to `v`.
pub fn extend_str(v: &mut Vec<char>, t: &str)
    ensures
        final(v)@ == old(v)@ + t@,
{
    let tc = chars_of(t);
    extend_chars(v, &tc);
}

/// Whether two character sequences are equal.
pub fn chars_eq(a: &Vec<char>, b: &Vec<char>) -> (r: bool)
    ensures
        r == (a@ == b@),
{
    if a.len() != b.len() {
        return false;
    }
    let mut i: usize = 0;
    while i < a.len()
        invariant
            a.len() == b.len(),
            i <= a.len(),
            forall|k: int| 0 <= k < i ==> a@[k] == b@[k],
        decreases a.len() - i,
    {
        if a[i] != b[i] {
            return false;
        }
        i += 1;
    }
    proof {
        assert(a@ =~= b@);
    }
    true
}

/// Whether `v` equals the text `t`.
pub fn chars_eq_str(v: &Vec<char>, t: &str) -> (r: bool)
    ensures
        r == (v@ == t@),
{
    let tc = chars_of(t);
    chars_eq(v, &tc)
}

/// `char::is_whitespace`.
pub fn is_whitespace(c: char) -> (r: bool)
    ensures
        r == is_ws(c),
{
    let u = c as u32;
    u == 0x20 || (0x09 <= u && u <= 0x0d) || u == 0x85 || u == 0xa0 || u == 0x1680 || (0x2000
        <= u && u <= 0x200a) || u == 0x2028 || u == 0x2029 || u == 0x202f || u == 0x205f || u
        == 0x3000
}

/// Whether `c` is an ASCII decimal digit.
pub fn is_ascii_digit(c: char) -> (r: bool)
    ensures
        r == is_digit(c),
{
    let u = c as u32;
    0x30 <= u && u <= 0x39
}

/// The ASCII digit for `d`.
pub fn digit_to_char(d: usize) -> (c: char)
    requires
        d < 10,
    ensures
        c == digit_char(d as nat),
{
    let b: u8 = 48u8 + (d as u8);
    proof {
        assert((48u8 + (d as u8)) as nat == 0x30 + d);
    }
    b as char
}

/// Appends the decimal representation of `n` to `v`.
pub fn push_decimal(v: &mut Vec<char>, n: usize)
    ensures
        final(v)@ == old(v)@ + dec(n as nat),
    decreases n,
{
    if n >= 10 {
        push_decimal(v, n / 10);
    }
    v.push(digit_to_char(n % 10));
    proof {
        if n >= 10 {
            assert(dec(n as nat) == dec((n / 10) as nat).push(digit_char((n % 10) as nat)));
        }
    }
}

/// The decimal representation of `n`.
pub fn decimal(n: usize) -> (out: Vec<char>)
    ensures
        out@ == dec(n as nat),
{
    let mut v: Vec<char> = Vec::new();
    push_decimal(&mut v, n);
    proof {
        assert(Seq::<char>::empty() + dec(n as nat) =~= dec(n as nat));
    }
    v
}

/// `str::trim` on a character sequence.
pub fn trim_chars(s: &Vec<char>) -> (out: Vec<char>)
    ensures
        out@ == trim(s@),
{
    let mut i: usize = 0;
    proof {
        assert(s@.skip(0) =~= s@);
    }
    while i < s.len() && is_whitespace(s[i])
        invariant
            i <= s.len(),
            trim_start(s@) == trim_start(s@.skip(i as int)),
        decreases s.len() - i,
    {
        proof {
            assert(s@.skip(i as int).drop_first() =~= s@.skip(i + 1));
        }
        i += 1;
    }
    assert(trim_start(s@) == s@.skip(i as int));
    let mut j: usize = s.len();
    proof {
        assert(s@.skip(i as int) =~= s@.subrange(i as int, j as int));
    }
    while j > i && is_whitespace(s[j - 1])
        invariant
            i <= j <= s.len(),
            trim_end(s@.skip(i as int)) == trim_end(s@.subrange(i as int, j as int)),
        decreases j,
    {
        proof {
            assert(s@.subrange(i as int, j as int).drop_last() =~= s@.subrange(
                i as int,
                j - 1,
            ));
        }
        j -= 1;
    }
    assert(trim_end(s@.subrange(i as int, j as int)) == s@.subrange(i as int, j as int));
    let mut out: Vec<char> = Vec::new();
    let mut k: usize = i;
    while k < j
        invariant
            i <= k <= j <= s.len(),
            out@ == s@.subrange(i as int, k as int),
        decreases j - k,
    {
        out.push(s[k]);
        proof {
            assert(s@.subrange(i as int, k + 1) =~= s@.subrange(i as int, k as int).push(
                s@[k as int],
            ));
        }
        k += 1;
    }
    out
}

/// `s` with every `from` replaced by `to`.
pub fn replace_chars(s: &Vec<char>, from: char, to: char) -> (out: Vec<char>)
    ensures
        out@ == replace_char(s@, from, to),
{
    let mut out: Vec<char> = Vec::new();
    let mut i: usize = 0;
    while i < s.len()
        invariant
            i <= s.len(),
            out@ =~= replace_char(s@.take(i as int), from, to),
        decreases s.len() - i,
    {
        if s[i] == from {
            out.push(to);
        } else {
            out.push(s[i]);
        }
        proof {
            assert(replace_char(s@.take(i + 1), from, to) =~= replace_char(
                s@.take(i as int),
                from,
                to,
            ).push(if s@[i as int] == from { to } else { s@[i as int] }));
        }
        i += 1;
    }
    proof {
        assert(s@.take(s.len() as int) =~= s@);
    }
    out
}

/// `s` with every `c` deleted.
pub fn remove_chars(s: &Vec<char>, c: char) -> (out: Vec<char>)
    ensures
        out@ == remove_char(s@, c),
{
    let mut out: Vec<char> = Vec::new();
    let mut i: usize = 0;
    while i < s.len()
        invariant
            i <= s.len(),
            out@ == remove_char(s@.take(i as int), c),
        decreases s.len() - i,
    {
        proof {
            assert(s@.take(i + 1).drop_last() =~= s@.take(i as int));
        }
        if s[i] != c {
            out.push(s[i]);
        }
        i += 1;
    }
    proof {
        assert(s@.take(s.len() as int) =~= s@);
    }
    out
}

/// Whether `s` contains `c`.
pub fn has_char(s: &Vec<char>, c: char) -> (r: bool)
    ensures
        r == s@.contains(c),
{
    let mut i: usize = 0;
    while i < s.len()
        invariant
            i <= s.len(),
            forall|k: int| 0 <= k < i ==> s@[k] != c,
        decreases s.len() - i,
    {
        if s[i] == c {
            return true;
        }
        i += 1;
    }
    false
}

/// The pieces of `s` between occurrences of `sep`.
pub fn split_chars(s: &Vec<char>, sep: char) -> (out: Vec<Vec<char>>)
    ensures
        views(out@) == split_on(s@, sep),
{
    let mut done: Vec<Vec<char>> = Vec::new();
    let mut cur: Vec<char> = Vec::new();
    let mut i: usize = 0;
    proof {
        assert(s@.take(0) =~= Seq::<char>::empty());

    }
    while i < s.len()
        invariant
            i <= s.len(),
            views(done@).push(cur@) =~= split_on(s@.take(i as int), sep),
        decreases s.len() - i,
    {
        let c = s[i];
        proof {
            assert(s@.take(i + 1).drop_last() =~= s@.take(i as int));
            lemma_split_on_nonempty(s@.take(i as int), sep);
        }
        if c == sep {
            let ghost before = views(done@);
            let finished = cur;
            done.push(finished);
            cur = Vec::new();
            proof {
                assert(views(done@) =~= before.push(finished@));
            }
        } else {
            cur.push(c);
        }
        i += 1;
    }
    let ghost before = views(done@);
    let last = cur;
    done.push(last);
    proof {
        assert(views(done@) =~= before.push(last@));
        assert(s@.take(s.len() as int) =~= s@);
    }
    done
}

/// The text before the first `c` in `s` and the text after it; `None` when
/// `s` holds no `c`.
pub fn split_once_chars(s: &Vec<char>, c: char) -> (r: Option<(Vec<char>, Vec<char>)>)
    ensures
        r is None <==> !s@.contains(c),
        r matches Some((a, b)) ==> (a@, b@) == split_once(s@, c),
{
    let mut k: usize = 0;
    while k < s.len() && s[k] != c
        invariant
            k <= s.len(),
            forall|j: int| 0 <= j < k ==> s@[j] != c,
        decreases s.len() - k,
    {
        k += 1;
    }
    if k == s.len() {
        return None;
    }
    proof {
        assert(s@.contains(c)) by {
            assert(s@[k as int] == c);
        }
    }
    proof {
        lemma_split_once_at(s@, c, k as int);
    }
    let mut a: Vec<char> = Vec::new();
    let mut i: usize = 0;
    while i < k
        invariant
            k < s.len(),
            i <= k,
            a@ == s@.take(i as int),
        decreases k - i,
    {
        a.push(s[i]);
        proof {
            assert(s@.take(i + 1) =~= s@.take(i as int).push(s@[i as int]));
        }
        i += 1;
    }
    let mut b: Vec<char> = Vec::new();
    let mut j: usize = k + 1;
    while j < s.len()
        invariant
            k < j <= s.len(),
            b@ == s@.subrange(k + 1, j as int),
        decreases s.len() - j,
    {
        b.push(s[j]);
        proof {
            assert(s@.subrange(k + 1, j + 1) =~= s@.subrange(k + 1, j as int).push(s@[j as int]));
        }
        j += 1;
    }
    proof {
        assert(s@.subrange(k + 1, s.len() as int) =~= s@.skip(k + 1));
    }
    Some((a, b))
}

/// The maximal runs of non-whitespace characters of `s`.
pub fn words_of(s: &Vec<char>) -> (out: Vec<Vec<char>>)
    ensures
        views(out@) == words(s@),
{
    let mut out: Vec<Vec<char>> = Vec::new();
    let mut i: usize = 0;
    proof {
        assert(s@.take(0) =~= Seq::<char>::empty());
        assert(views(out@) =~= words(s@.take(0)));
    }
    while i < s.len()
        invariant
            i <= s.len(),
            views(out@) =~= words(s@.take(i as int)),
        decreases s.len() - i,
    {
        let c = s[i];
        let ghost before = views(out@);
        proof {
            assert(s@.take(i + 1).drop_last() =~= s@.take(i as int));
            assert(s@.take(i + 1).last() == c);
        }
        if is_whitespace(c) {
        } else if i > 0 && !is_whitespace(s[i - 1]) {
            proof {
                lemma_words_last(s@.take(i as int));
                assert(s@.take(i as int).last() == s@[i - 1]);
                assert(s@.take(i + 1)[i - 1] == s@[i - 1]);
            }
            let mut w = out.pop().unwrap();
            w.push(c);
            out.push(w);
            proof {
                assert(views(out@) =~= before.update(before.len() - 1, before.last().push(c)));
            }
        } else {
            proof {
                if i > 0 {
                    assert(s@.take(i + 1)[i - 1] == s@[i - 1]);
                }
            }
            let mut w: Vec<char> = Vec::new();
            w.push(c);
            out.push(w);
            proof {
                assert(views(out@) =~= before.push(seq![c]));
            }
        }
        i += 1;
    }
    proof {
        assert(s@.take(s.len() as int) =~= s@);
    }
    out
}

/// The pieces of `parts` concatenated with `sep` between neighbours.
pub fn join_chars(parts: &Vec<Vec<char>>, sep: &Vec<char>) -> (out: Vec<char>)
    ensures
        out@ == join(views(parts@), sep@),
{
    let mut out: Vec<char> = Vec::new();
    let mut i: usize = 0;
    proof {
        assert(views(parts@).take(0) =~= Seq::<Seq<char>>::empty());
    }
    while i < parts.len()
        invariant
            i <= parts.len(),
            out@ == join(views(parts@).take(i as int), sep@),
        decreases parts.len() - i,
    {
        proof {
            lemma_join_step(views(parts@), sep@, i as int);
        }
        if i > 0 {
            extend_chars(&mut out, sep);
        }
        extend_chars(&mut out, &parts[i]);
        proof {
            if i == 0 {
                assert(Seq::<char>::empty() + parts@[0]@ =~= parts@[0]@);
            }
        }
        i += 1;
    }
    proof {
        assert(views(parts@).take(parts.len() as int) =~= views(parts@));
    }
    out
}

/// The lines of `s`, as `str::lines` yields them.
pub fn lines_of(s: &Vec<char>) -> (out: Vec<Vec<char>>)
    ensures
        views(out@) == lines(s@),
{
    let pieces = split_chars(s, '\n');
    proof {
        lemma_split_on_nonempty(s@, '\n');
    }
    let ghost p = split_on(s@, '\n');
    let n = pieces.len();
    let mut out: Vec<Vec<char>> = Vec::new();
    let mut i: usize = 0;
    while i + 1 < n
        invariant
            n == pieces.len(),
            n >= 1,
            views(pieces@) == p,
            i + 1 <= n,
            views(out@) =~= p.take(i as int).map_values(|x: Seq<char>| strip_cr(x)),
        decreases n - i,
    {
        let piece = &pieces[i];
        let mut line: Vec<char> = Vec::new();
        let len = piece.len();
        let keep = if len > 0 && piece[len - 1] == '\r' { len - 1 } else { len };
        let mut k: usize = 0;
        while k < keep
            invariant
                keep <= len,
                len == piece.len(),
                k <= keep,
                line@ == piece@.take(k as int),
            decreases keep - k,
        {
            line.push(piece[k]);
            proof {
                assert(piece@.take(k + 1) =~= piece@.take(k as int).push(piece@[k as int]));
            }
            k += 1;
        }
        proof {
            assert(line@ =~= strip_cr(piece@));
            assert(p[i as int] == piece@);
        }
        let ghost before = views(out@);
        out.push(line);
        proof {
            assert(views(out@) =~= before.push(line@));
            assert(p.take(i + 1).map_values(|x: Seq<char>| strip_cr(x)) =~= p.take(
                i as int,
            ).map_values(|x: Seq<char>| strip_cr(x)).push(strip_cr(p[i as int])));
        }
        i += 1;
    }
    proof {
        assert(p.take(i as int) =~= p.drop_last());
        assert(p.last() == pieces@[n - 1]@);
    }
    if pieces[n - 1].len() > 0 {
        let ghost before = views(out@);
        let mut last: Vec<char> = Vec::new();
        extend_chars(&mut last, &pieces[n - 1]);
        out.push(last);
        proof {
            assert(Seq::<char>::empty() + pieces@[n - 1]@ =~= pieces@[n - 1]@);
            assert(views(out@) =~= before.push(p.last()));
        }
    }
    out
}

/// Whether `p` is a prefix of `s`.
pub fn starts_with_chars(s: &Vec<char>, p: &Vec<char>) -> (r: bool)
    ensures
        r == starts_with(s@, p@),
{
    if p.len() > s.len() {
        return false;
    }
    let mut i: usize = 0;
    while i < p.len()
        invariant
            p.len() <= s.len(),
            i <= p.len(),
            forall|k: int| 0 <= k < i ==> s@[k] == p@[k],
        decreases p.len() - i,
    {
        if s[i] != p[i] {
            proof {
                assert(s@.subrange(0, p.len() as int)[i as int] != p@[i as int]);
            }
            return false;
        }
        i += 1;
    }
    proof {
        assert(s@.subrange(0, p.len() as int) =~= p@);
    }
    true
}

/// Whether `n` occurs in `s` as a contiguous piece.
pub fn contains_chars(s: &Vec<char>, n: &Vec<char>) -> (r: bool)
    ensures
        r == contains_piece(s@, n@),
{
    if n.len() > s.len() {
        return false;
    }
    let mut i: usize = 0;
    while i <= s.len() - n.len()
        invariant
            n.len() <= s.len(),
            i <= s.len() - n.len() + 1,
            forall|j: int| 0 <= j < i ==> #[trigger] s@.subrange(j, j + n.len()) != n@,
        decreases s.len() - i,
    {
        let mut k: usize = 0;
        let mut same = true;
        while k < n.len()
            invariant
                i + n.len() <= s.len(),
                k <= n.len(),
                same == forall|m: int| 0 <= m < k ==> s@[i + m] == n@[m],
            decreases n.len() - k,
        {
            if s[i + k] != n[k] {
                same = false;
            }
            k += 1;
        }
        if same {
            proof {
                assert(s@.subrange(i as int, i + n.len()) =~= n@);
            }
            return true;
        }
        proof {
            let j = choose|m: int| 0 <= m < n.len() && s@[i + m] != n@[m];
            assert(s@.subrange(i as int, i + n.len())[j] != n@[j]);
        }
        i += 1;
    }
    false
}

/// `usize::from_str` on a character sequence.
pub fn parse_usize_chars(s: &Vec<char>) -> (r: Result<usize, IntErrorKind>)
    ensures
        r == parse_usize(s@),
{
    if s.len() == 0 {
        return Err(IntErrorKind::Empty);
    }
    let start: usize = if s[0] == '+' { 1 } else { 0 };
    let ghost d = if s@[0] == '+' { s@.drop_first() } else { s@ };
    proof {
        assert(d =~= s@.skip(start as int));
    }
    if start == s.len() {
        return Err(IntErrorKind::InvalidDigit);
    }
    let mut acc: usize = 0;
    let mut i: usize = start;
    proof {
        assert(d.skip(0) =~= d);
        assert(d.len() > 0);
    }
    while i < s.len()
        invariant
            start <= i <= s.len(),
            d =~= s@.skip(start as int),
            scan_digits(d, 0) == scan_digits(s@.skip(i as int), acc as nat),
            parse_usize(s@) == match scan_digits(d, 0) {
                Ok(v) => Ok::<usize, IntErrorKind>(v as usize),
                Err(e) => Err(e),
            },
        decreases s.len() - i,
    {
        let c = s[i];
        proof {
            assert(s@.skip(i as int)[0] == c);
            assert(s@.skip(i as int).drop_first() =~= s@.skip(i + 1));
        }
        let ghost rest = s@.skip(i as int);
        assert(rest.len() > 0 && rest[0] == c);
        if !is_ascii_digit(c) {
            assert(scan_digits(rest, acc as nat) == Err::<nat, IntErrorKind>(IntErrorKind::InvalidDigit));
            return Err(IntErrorKind::InvalidDigit);
        }
        let dv: usize = (c as u32 - 0x30) as usize;
        assert(dv == digit_value(c));
        match acc.checked_mul(10) {
            None => {
                assert(scan_digits(rest, acc as nat) == Err::<nat, IntErrorKind>(IntErrorKind::PosOverflow));
                return Err(IntErrorKind::PosOverflow);
            },
            Some(m) => match m.checked_add(dv) {
                None => {
                    assert(scan_digits(rest, acc as nat) == Err::<nat, IntErrorKind>(IntErrorKind::PosOverflow));
                    return Err(IntErrorKind::PosOverflow);
                },
                Some(a) => {
                    acc = a;
                },
            },
        }
        i += 1;
    }
    proof {
        assert(s@.skip(s.len() as int).len() == 0);
    }
    Ok(acc)
}

/// Whether `v` holds `x`.
pub fn contains_usize(v: &Vec<usize>, x: usize) -> (r: bool)
    ensures
        r == v@.contains(x),
{
    let mut i: usize = 0;
    while i < v.len()
        invariant
            i <= v.len(),
            forall|k: int| 0 <= k < i ==> v@[k] != x,
        decreases v.len() - i,
    {
        if v[i] == x {
            return true;
        }
        i += 1;
    }
    false
}

/// Every character of `s` is ASCII.
pub open spec fn is_ascii_text(s: Seq<char>) -> bool {
    forall|i: int| 0 <= i < s.len() ==> (#[trigger] s[i] as u32) < 0x80
}

/// `c` with an ASCII capital letter made small.
pub open spec fn ascii_lower_char(c: char) -> char {
    if 0x41 <= (c as u32) && (c as u32) <= 0x5a {
        ((c as u32) + 0x20) as char
    } else {
        c
    }
}

/// `c` with an ASCII small letter made capital.
pub open spec fn ascii_upper_char(c: char) -> char {
    if 0x61 <= (c as u32) && (c as u32) <= 0x7a {
        ((c as u32) - 0x20) as char
    } else {
        c
    }
}

/// `s` with its ASCII capital letters made small.
pub open spec fn ascii_lower(s: Seq<char>) -> Seq<char> {
    s.map_values(|c: char| ascii_lower_char(c))
}

/// `s` with its ASCII small letters made capital.
pub open spec fn ascii_upper(s: Seq<char>) -> Seq<char> {
    s.map_values(|c: char| ascii_upper_char(c))
}

/// What `str::to_lowercase` returns for a text (the Unicode lowercase mapping).
pub uninterp spec fn lowercase(s: Seq<char>) -> Seq<char>;

/// What `str::to_uppercase` returns for a text (the Unicode uppercase mapping).
pub uninterp spec fn uppercase(s: Seq<char>) -> Seq<char>;

/// The lowercase form of a text: for ASCII text, its capitals made small;
/// otherwise what `str::to_lowercase` returns.
pub open spec fn lowered(s: Seq<char>) -> Seq<char> {
    if is_ascii_text(s) {
        ascii_lower(s)
    } else {
        lowercase(s)
    }
}

/// The uppercase form of a text: for ASCII text, its small letters made
/// capital; otherwise what `str::to_uppercase` returns.
pub open spec fn uppered(s: Seq<char>) -> Seq<char> {
    if is_ascii_text(s) {
        ascii_upper(s)
    } else {
        uppercase(s)
    }
}

/// `str::to_lowercase`; its result is named `lowercase` of the text. On
/// ASCII text the Unicode lowercase mapping makes `A`..`Z` small and leaves
/// every other character as it is, which the contract states; nothing more
/// is claimed of it.
#[verifier::external_body]
pub(crate) fn to_lowercase(s: &str) -> (r: String)
    ensures
        r@ == lowercase(s@),
        is_ascii_text(s@) ==> r@ == ascii_lower(s@),
{
    s.to_lowercase()
}

/// `str::to_uppercase`; its result is named `uppercase` of the text. On
/// ASCII text the Unicode uppercase mapping makes `a`..`z` capital and
/// leaves every other character as it is, which the contract states;
/// nothing more is claimed of it.
#[verifier::external_body]
pub(crate) fn to_uppercase(s: &str) -> (r: String)
    ensures
        r@ == uppercase(s@),
        is_ascii_text(s@) ==> r@ == ascii_upper(s@),
{
    s.to_uppercase()
}

/// The texts held by a sequence of strings.
pub open spec fn string_views(v: Seq<String>) -> Seq<Seq<char>> {
    Seq::new(v.len(), |i: int| v[i]@)
}

/// Strings holding the character vectors of `v`.
pub fn strings_of(v: &Vec<Vec<char>>) -> (out: Vec<String>)
    ensures
        string_views(out@) == views(v@),
{
    let mut out: Vec<String> = Vec::new();
    let mut i: usize = 0;
    while i < v.len()
        invariant
            i <= v.len(),
            string_views(out@) =~= views(v@).take(i as int),
        decreases v.len() - i,
    {
        let s = string_of(&v[i]);
        let ghost before = string_views(out@);
        out.push(s);
        proof {
            assert(string_views(out@) =~= before.push(v@[i as int]@));
            assert(views(v@).take(i + 1) =~= views(v@).take(i as int).push(v@[i as int]@));
        }
        i += 1;
    }
    proof {
        assert(views(v@).take(v.len() as int) =~= views(v@));
    }
    out
}

/// Whether every character of `s` is an ASCII digit.
pub fn all_ascii_digits(s: &Vec<char>) -> (r: bool)
    ensures
        r == forall|k: int| 0 <= k < s@.len() ==> is_digit(s@[k]),
{
    let mut i: usize = 0;
    while i < s.len()
        invariant
            i <= s.len(),
            forall|k: int| 0 <= k < i ==> is_digit(s@[k]),
        decreases s.len() - i,
    {
        if !is_ascii_digit(s[i]) {
            return false;
        }
        i += 1;
    }
    true
}

/// Appends the decimal representation of `n` to `v`.
pub fn push_decimal_u64(v: &mut Vec<char>, n: u64)
    ensures
        final(v)@ == old(v)@ + dec(n as nat),
    decreases n,
{
    if n >= 10 {
        push_decimal_u64(v, n / 10);
    }
    v.push(digit_to_char((n % 10) as usize));
    proof {
        if n >= 10 {
            assert(dec(n as nat) == dec((n / 10) as nat).push(digit_char((n % 10) as nat)));
        }
    }
}

/// Appends the text `s` to the list `v`.
pub fn push_text(v: &mut Vec<String>, s: String)
    ensures
        string_views(final(v)@) == string_views(old(v)@).push(s@),
{
    let ghost before = string_views(v@);
    v.push(s);
    proof {
        assert(string_views(v@) =~= before.push(s@));
    }
}

/// The decimal representation of `n` as a string.
pub fn decimal_string(n: usize) -> (s: String)
    ensures
        s@ == dec(n as nat),
{
    let v = decimal(n);
    string_of(&v)
}

/// The texts of a list of strings joined with `sep`.
pub fn join_strings(parts: &[String], sep: &str) -> (s: String)
    ensures
        s@ == join(string_views(parts@), sep@),
{
    let mut vs: Vec<Vec<char>> = Vec::new();
    let mut i: usize = 0;
    while i < parts.len()
        invariant
            i <= parts@.len(),
            views(vs@) =~= string_views(parts@).take(i as int),
        decreases parts.len() - i,
    {
        let ghost before = views(vs@);
        let c = chars_of(parts[i].as_str());
        vs.push(c);
        proof {
            assert(views(vs@) =~= before.push(parts@[i as int]@));
        }
        i += 1;
    }
    proof {
        assert(string_views(parts@).take(parts.len() as int) =~= string_views(parts@));
    }
    let sv = chars_of(sep);
    let j = join_chars(&vs, &sv);
    string_of(&j)
}

/// Whether two texts are equal.
pub fn text_eq(a: &str, b: &str) -> (r: bool)
    ensures
        r == (a@ == b@),
{
    let v = chars_of(a);
    chars_eq_str(&v, b)
}

/// Appends the text `s` to the list `v`.
pub fn push_str_item(v: &mut Vec<String>, s: &str)
    ensures
        string_views(final(v)@) == string_views(old(v)@).push(s@),
{
    push_text(v, s.to_owned());
}

/// What `regex::Regex::new(pattern)` followed by `replace_all(text, "")`
/// gives: `None` when the pattern does not compile, else the text with
/// every match removed.
pub uninterp spec fn regex_removal(pattern: Seq<char>, text: Seq<char>) -> Option<Seq<char>>;

/// `Regex::new` and `Regex::replace_all` with an empty replacement. The
/// result is named `regex_removal` of the pattern and the text; nothing
/// more is claimed of the regex engine.
#[verifier::external_body]
pub(crate) fn regex_remove(pattern: &str, text: &str) -> (r: Option<String>)
    ensures
        match r {
            Some(s) => Some(s@),
            None => None::<Seq<char>>,
        } == regex_removal(pattern@, text@),
{
    match regex::Regex::new(pattern) {
        Ok(re) => Some(re.replace_all(text, "").to_string()),
        Err(_) => None,
    }
}

/// The pattern of an ANSI colour or style sequence (`ESC [ digits/; m`).
pub const ANSI_SEQUENCE_PATTERN: &'static str = "\x1b\\[[0-9;]*m";

/// `text` with its ANSI colour and style sequences removed (by the regex
/// crate; a pattern that did not compile would leave the text as it is).
pub open spec fn without_ansi(text: Seq<char>) -> Seq<char> {
    match regex_removal(ANSI_SEQUENCE_PATTERN@, text) {
        Some(s) => s,
        None => text,
    }
}

/// `text` with its ANSI colour and style sequences removed.
pub fn strip_ansi_escape_sequences(text: &str) -> (s: String)
    ensures
        s@ == without_ansi(text@),
{
    match regex_remove(ANSI_SEQUENCE_PATTERN, text) {
        Some(s) => s,
        None => text.to_owned(),
    }
}

/// Accumulation of decimal digits onto `acc`, failing at the first
/// non-digit or at the first overflow of `u64`.
pub open spec fn scan_digits_u64(d: Seq<char>, acc: nat) -> Result<nat, IntErrorKind>
    decreases d.len(),
{
    if d.len() == 0 {
        Ok(acc)
    } else if !is_digit(d[0]) {
        Err(IntErrorKind::InvalidDigit)
    } else if acc * 10 + digit_value(d[0]) > u64::MAX {
        Err(IntErrorKind::PosOverflow)
    } else {
        scan_digits_u64(d.drop_first(), acc * 10 + digit_value(d[0]))
    }
}

/// The result of `u64::from_str`: an optional `+`, then at least one digit.
pub open spec fn parse_u64(s: Seq<char>) -> Result<u64, IntErrorKind> {
    if s.len() == 0 {
        Err(IntErrorKind::Empty)
    } else {
        let d = if s[0] == '+' { s.drop_first() } else { s };
        if d.len() == 0 {
            Err(IntErrorKind::InvalidDigit)
        } else {
            match scan_digits_u64(d, 0) {
                Ok(v) => Ok(v as u64),
                Err(e) => Err(e),
            }
        }
    }
}

/// `u64::from_str` on a text.
pub fn parse_u64_text(text: &str) -> (r: Result<u64, IntErrorKind>)
    ensures
        r == parse_u64(text@),
{
    let s = chars_of(text);
    if s.len() == 0 {
        return Err(IntErrorKind::Empty);
    }
    let start: usize = if s[0] == '+' { 1 } else { 0 };
    let ghost d = if s@[0] == '+' { s@.drop_first() } else { s@ };
    proof {
        assert(d =~= s@.skip(start as int));
    }
    if start == s.len() {
        return Err(IntErrorKind::InvalidDigit);
    }
    let mut acc: u64 = 0;
    let mut i: usize = start;
    proof {
        assert(d.skip(0) =~= d);
    }
    while i < s.len()
        invariant
            start <= i <= s.len(),
            d =~= s@.skip(start as int),
            s@ == text@,
            scan_digits_u64(d, 0) == scan_digits_u64(s@.skip(i as int), acc as nat),
            parse_u64(s@) == match scan_digits_u64(d, 0) {
                Ok(v) => Ok::<u64, IntErrorKind>(v as u64),
                Err(e) => Err(e),
            },
        decreases s.len() - i,
    {
        let c = s[i];
        proof {
            assert(s@.skip(i as int)[0] == c);
            assert(s@.skip(i as int).drop_first() =~= s@.skip(i + 1));
        }
        let ghost rest = s@.skip(i as int);
        assert(rest.len() > 0 && rest[0] == c);
        if !is_ascii_digit(c) {
            assert(scan_digits_u64(rest, acc as nat) == Err::<nat, IntErrorKind>(IntErrorKind::InvalidDigit));
            return Err(IntErrorKind::InvalidDigit);
        }
        let dv: u64 = (c as u32 - 0x30) as u64;
        assert(dv == digit_value(c));
        match acc.checked_mul(10) {
            None => {
                assert(scan_digits_u64(rest, acc as nat) == Err::<nat, IntErrorKind>(IntErrorKind::PosOverflow));
                return Err(IntErrorKind::PosOverflow);
            },
            Some(m) => match m.checked_add(dv) {
                None => {
                    assert(scan_digits_u64(rest, acc as nat) == Err::<nat, IntErrorKind>(IntErrorKind::PosOverflow));
                    return Err(IntErrorKind::PosOverflow);
                },
                Some(a) => {
                    acc = a;
                },
            },
        }
        i += 1;
    }
    proof {
        assert(s@.skip(s.len() as int).len() == 0);
    }
    Ok(acc)
}

proof fn lemma_split_on_plain_suffix(a: Seq<char>, b: Seq<char>, sep: char)
    requires
        !b.contains(sep),
    ensures
        split_on(a + b, sep) == split_on(a, sep).update(
            split_on(a, sep).len() - 1,
            split_on(a, sep).last() + b,
        ),
    decreases b.len(),
{
    lemma_split_on_nonempty(a, sep);
    let p = split_on(a, sep);
    if b.len() == 0 {
        assert(a + b =~= a);
        assert(p.last() + b =~= p.last());
        assert(p.update(p.len() - 1, p.last() + b) =~= p);
    } else {
        let b0 = b.drop_last();
        assert(!b0.contains(sep)) by {
            if b0.contains(sep) {
                let k = choose|k: int| 0 <= k < b0.len() && b0[k] == sep;
                assert(b[k] == sep);
            }
        }
        lemma_split_on_plain_suffix(a, b0, sep);
        assert((a + b).drop_last() =~= a + b0);
        assert((a + b).last() == b.last());
        assert(b.last() != sep) by {
            assert(b[b.len() - 1] == b.last());
        }
        let q = p.update(p.len() - 1, p.last() + b0);
        assert(q.last().push(b.last()) =~= p.last() + b);
        assert(q.update(q.len() - 1, q.last().push(b.last())) =~= p.update(p.len() - 1, p.last() + b));
    }
}

/// Splitting at `sep` undoes joining with `sep` when no part holds `sep`
/// (and there is at least one part).
pub proof fn law_split_undoes_join(parts: Seq<Seq<char>>, sep: char)
    requires
        parts.len() >= 1,
        forall|i: int| 0 <= i < parts.len() ==> !(#[trigger] parts[i]).contains(sep),
    ensures
        split_on(join(parts, seq![sep]), sep) == parts,
    decreases parts.len(),
{
    if parts.len() == 1 {
        assert(!parts[0].contains(sep));
        lemma_split_on_plain_suffix(Seq::empty(), parts[0], sep);
        assert(Seq::<char>::empty() + parts[0] =~= parts[0]);
        assert(split_on(Seq::<char>::empty(), sep) =~= seq![Seq::<char>::empty()]);
        assert(Seq::<char>::empty() + parts[0] =~= parts[0]);
        assert(seq![Seq::<char>::empty()].update(0, Seq::<char>::empty() + parts[0]) =~= parts);
    } else {
        let init = parts.drop_last();
        assert forall|i: int| 0 <= i < init.len() implies !(#[trigger] init[i]).contains(sep) by {
            assert(init[i] == parts[i]);
        }
        law_split_undoes_join(init, sep);
        let j = join(init, seq![sep]);
        assert(join(parts, seq![sep]) == j + seq![sep] + parts.last());
        assert((j + seq![sep]).drop_last() =~= j);
        assert(split_on(j + seq![sep], sep) == init.push(Seq::empty()));
        assert(!parts.last().contains(sep)) by {
            assert(parts[parts.len() - 1] == parts.last());
        }
        lemma_split_on_plain_suffix(j + seq![sep], parts.last(), sep);
        assert(Seq::<char>::empty() + parts.last() =~= parts.last());
        assert(init.push(Seq::empty()).update(init.len() as int, Seq::<char>::empty() + parts.last()) =~= parts);
    }
}

/// The capture groups of one regex match, by group number (group 0 is the
/// whole match; `None` for a group that did not take part).
pub open spec fn group_view(m: Seq<Option<String>>) -> Seq<Option<Seq<char>>> {
    Seq::new(
        m.len(),
        |k: int|
            match m[k] {
                Some(s) => Some(s@),
                None => None,
            },
    )
}

/// The capture groups of a list of regex matches.
pub open spec fn groups_view(v: Seq<Vec<Option<String>>>) -> Seq<Seq<Option<Seq<char>>>> {
    Seq::new(v.len(), |i: int| group_view(v[i]@))
}

/// What `regex::Regex::new(pattern)` followed by `captures_iter(text)`
/// gives: `None` when the pattern does not compile, else for each match,
/// left to right, its capture groups by number.
pub uninterp spec fn regex_captures(pattern: Seq<char>, text: Seq<char>) -> Option<Seq<Seq<Option<Seq<char>>>>>;

/// `Regex::new` and `Regex::captures_iter`, each match's groups turned
/// into owned strings. The result is named `regex_captures` of the pattern
/// and the text; nothing more is claimed of the regex engine.
#[verifier::external_body]
pub(crate) fn regex_capture_groups(pattern: &str, text: &str) -> (r: Option<Vec<Vec<Option<String>>>>)
    ensures
        match r {
            Some(v) => Some(groups_view(v@)),
            None => None::<Seq<Seq<Option<Seq<char>>>>>,
        } == regex_captures(pattern@, text@),
{
    let re = regex::Regex::new(pattern).ok()?;
    Some(re.captures_iter(text).map(|c| c.iter().map(|g| g.map(|m| m.as_str().to_string())).collect()).collect())
}

/// What `regex::Regex::new(pattern)` followed by `split(text)` gives:
/// `None` when the pattern does not compile, else the pieces of the text
/// between its matches, left to right.
pub uninterp spec fn regex_pieces(pattern: Seq<char>, text: Seq<char>) -> Option<Seq<Seq<char>>>;

/// `Regex::new` and `Regex::split`, the pieces turned into owned strings.
/// The result is named `regex_pieces` of the pattern and the text; nothing
/// more is claimed of the regex engine.
#[verifier::external_body]
pub(crate) fn regex_split(pattern: &str, text: &str) -> (r: Option<Vec<String>>)
    ensures
        match r {
            Some(v) => Some(string_views(v@)),
            None => None::<Seq<Seq<char>>>,
        } == regex_pieces(pattern@, text@),
{
    let re = regex::Regex::new(pattern).ok()?;
    Some(re.split(text).map(|p| p.to_string()).collect())
}

/// `n` occurs in `s` starting at position `i`.
pub open spec fn occurs_at(s: Seq<char>, n: Seq<char>, i: int) -> bool {
    0 <= i && i + n.len() <= s.len() && s.subrange(i, i + n.len()) == n
}

/// The last position below `bound` at which `n` occurs in `s`.
pub open spec fn last_occurrence_below(s: Seq<char>, n: Seq<char>, bound: int) -> Option<int>
    decreases bound,
{
    if bound <= 0 {
        None
    } else if occurs_at(s, n, bound - 1) {
        Some(bound - 1)
    } else {
        last_occurrence_below(s, n, bound - 1)
    }
}

/// Where the last occurrence of `n` in `s` starts, as `str::rfind` finds it
/// (an empty `n` is found at the end).
pub open spec fn rfind_piece(s: Seq<char>, n: Seq<char>) -> Option<int> {
    last_occurrence_below(s, n, s.len() + 1int)
}

/// Whether `n` occurs in `s` at position `p`.
fn occurs_at_chars(s: &Vec<char>, n: &Vec<char>, p: usize) -> (r: bool)
    requires
        p <= s.len(),
    ensures
        r == occurs_at(s@, n@, p as int),
{
    if n.len() > s.len() - p {
        return false;
    }
    let mut k: usize = 0;
    while k < n.len()
        invariant
            p + n.len() <= s.len(),
            k <= n.len(),
            forall|m: int| 0 <= m < k ==> s@[p + m] == n@[m],
        decreases n.len() - k,
    {
        if s[p + k] != n[k] {
            proof {
                assert(s@.subrange(p as int, p + n.len())[k as int] != n@[k as int]);
            }
            return false;
        }
        k += 1;
    }
    proof {
        assert(s@.subrange(p as int, p + n.len()) =~= n@);
    }
    true
}

/// The start of the last occurrence of `n` in `s` (`str::rfind`).
pub fn rfind_chars(s: &Vec<char>, n: &Vec<char>) -> (r: Option<usize>)
    ensures
        match r {
            Some(i) => rfind_piece(s@, n@) == Some(i as int) && occurs_at(s@, n@, i as int),
            None => rfind_piece(s@, n@) == None::<int>,
        },
{
    let mut p: usize = s.len();
    loop
        invariant
            p <= s.len(),
            rfind_piece(s@, n@) == last_occurrence_below(s@, n@, p + 1int),
        decreases p,
    {
        if occurs_at_chars(s, n, p) {
            return Some(p);
        }
        if p == 0 {
            proof {
                assert(last_occurrence_below(s@, n@, 0) == None::<int>);
            }
            return None;
        }
        p -= 1;
    }
}

/// The characters of `s` from position `start` on.
pub fn suffix_chars(s: &Vec<char>, start: usize) -> (out: Vec<char>)
    requires
        start <= s.len(),
    ensures
        out@ == s@.skip(start as int),
{
    let mut out: Vec<char> = Vec::new();
    let mut i: usize = start;
    while i < s.len()
        invariant
            start <= i <= s.len(),
            out@ == s@.subrange(start as int, i as int),
        decreases s.len() - i,
    {
        out.push(s[i]);
        proof {
            assert(s@.subrange(start as int, i + 1) =~= s@.subrange(start as int, i as int).push(s@[i as int]));
        }
        i += 1;
    }
    proof {
        assert(s@.subrange(start as int, s.len() as int) =~= s@.skip(start as int));
    }
    out
}

/// Reading the digits `d` after the value `acc`: `None` at a character that
/// is no digit, or once the value passes `limit`.
pub open spec fn scan_digits_upto(d: Seq<char>, acc: nat, limit: nat) -> Option<nat>
    decreases d.len(),
{
    if d.len() == 0 {
        Some(acc)
    } else if !is_digit(d[0]) {
        None
    } else if acc * 10 + digit_value(d[0]) > limit {
        None
    } else {
        scan_digits_upto(d.drop_first(), acc * 10 + digit_value(d[0]), limit)
    }
}

/// The result of `i32::from_str`, its error left out: an optional sign,
/// then at least one digit, the value within the range of `i32`.
pub open spec fn parse_i32(s: Seq<char>) -> Option<i32> {
    if s.len() == 0 {
        None
    } else {
        let neg = s[0] == '-';
        let d = if s[0] == '+' || s[0] == '-' {
            s.drop_first()
        } else {
            s
        };
        if d.len() == 0 {
            None
        } else {
            match scan_digits_upto(d, 0, if neg { 0x8000_0000nat } else { 0x7fff_ffffnat }) {
                Some(v) => Some(
                    (if neg {
                        -(v as int)
                    } else {
                        v as int
                    }) as i32,
                ),
                None => None,
            }
        }
    }
}

/// `i32::from_str` on a text, its error left out.
pub fn parse_i32_text(text: &str) -> (r: Option<i32>)
    ensures
        r == parse_i32(text@),
{
    let s = chars_of(text);
    if s.len() == 0 {
        return None;
    }
    let neg = s[0] == '-';
    let start: usize = if s[0] == '+' || s[0] == '-' { 1 } else { 0 };
    let limit: u64 = if neg { 0x8000_0000 } else { 0x7fff_ffff };
    let ghost d = if s@[0] == '+' || s@[0] == '-' { s@.drop_first() } else { s@ };
    proof {
        assert(d =~= s@.skip(start as int));
    }
    if start == s.len() {
        return None;
    }
    let mut acc: u64 = 0;
    let mut i: usize = start;
    proof {
        assert(d.skip(0) =~= d);
    }
    while i < s.len()
        invariant
            start <= i <= s.len(),
            s@ == text@,
            d =~= s@.skip(start as int),
            acc <= limit,
            limit <= 0x8000_0000,
            parse_i32(s@) == match scan_digits_upto(d, 0, limit as nat) {
                Some(v) => Some(
                    (if neg {
                        -(v as int)
                    } else {
                        v as int
                    }) as i32,
                ),
                None => None,
            },
            scan_digits_upto(d, 0, limit as nat) == scan_digits_upto(s@.skip(i as int), acc as nat, limit as nat),
        decreases s.len() - i,
    {
        let c = s[i];
        proof {
            assert(s@.skip(i as int)[0] == c);
            assert(s@.skip(i as int).drop_first() =~= s@.skip(i + 1));
        }
        let ghost rest = s@.skip(i as int);
        assert(rest.len() > 0 && rest[0] == c);
        if !is_ascii_digit(c) {
            assert(scan_digits_upto(rest, acc as nat, limit as nat) == None::<nat>);
            return None;
        }
        let dv: u64 = (c as u32 - 0x30) as u64;
        assert(dv == digit_value(c));
        if acc * 10 + dv > limit {
            assert(scan_digits_upto(rest, acc as nat, limit as nat) == None::<nat>);
            return None;
        }
        acc = acc * 10 + dv;
        i += 1;
    }
    proof {
        assert(s@.skip(s.len() as int).len() == 0);
    }
    if neg {
        Some((0i64 - acc as i64) as i32)
    } else {
        Some(acc as i32)
    }
}

/// What `regex::Regex::new(pattern)` followed by `find(text)` gives: `None`
/// when the pattern does not compile, else the text of the first match, if
/// there is one.
pub uninterp spec fn regex_first_match(pattern: Seq<char>, text: Seq<char>) -> Option<Option<Seq<char>>>;

/// `Regex::new` and `Regex::find`, the match turned into an owned string.
/// The result is named `regex_first_match` of the pattern and the text;
/// nothing more is claimed of the regex engine.
#[verifier::external_body]
pub(crate) fn regex_find(pattern: &str, text: &str) -> (r: Option<Option<String>>)
    ensures
        match r {
            Some(Some(m)) => Some(Some(m@)),
            Some(None) => Some(None::<Seq<char>>),
            None => None::<Option<Seq<char>>>,
        } == regex_first_match(pattern@, text@),
{
    let re = regex::Regex::new(pattern).ok()?;
    Some(re.find(text).map(|m| m.as_str().to_string()))
}

/// The first position at or after `i` at which `n` occurs in `s`.
pub open spec fn first_occurrence_from(s: Seq<char>, n: Seq<char>, i: int) -> Option<int>
    decreases s.len() + 1 - i,
{
    if i < 0 || i + n.len() > s.len() {
        None
    } else if occurs_at(s, n, i) {
        Some(i)
    } else {
        first_occurrence_from(s, n, i + 1)
    }
}

/// `line.split(sep).nth(1)` for a non-empty `sep`: what follows the first
/// occurrence of `sep`, up to its next occurrence; `None` when `sep` does
/// not occur.
pub open spec fn second_piece(line: Seq<char>, sep: Seq<char>) -> Option<Seq<char>> {
    match first_occurrence_from(line, sep, 0) {
        None => None,
        Some(i) => {
            let rest = line.skip(i + sep.len());
            match first_occurrence_from(rest, sep, 0) {
                Some(j) => Some(rest.take(j)),
                None => Some(rest),
            }
        },
    }
}

/// The first position at or after `from` at which `n` occurs in `s`.
pub fn find_chars_from(s: &Vec<char>, n: &Vec<char>, from: usize) -> (r: Option<usize>)
    requires
        from <= s.len(),
    ensures
        match r {
            Some(i) => first_occurrence_from(s@, n@, from as int) == Some(i as int) && occurs_at(s@, n@, i as int),
            None => first_occurrence_from(s@, n@, from as int) == None::<int>,
        },
{
    let mut p: usize = from;
    while p <= s.len()
        invariant
            from <= p,
            p <= s.len() + 1,
            first_occurrence_from(s@, n@, from as int) == first_occurrence_from(s@, n@, p as int),
        decreases s.len() + 1 - p,
    {
        if n.len() > s.len() - p {
            return None;
        }
        if occurs_at_chars(s, n, p) {
            return Some(p);
        }
        if p == s.len() {
            assert(first_occurrence_from(s@, n@, p + 1) == None::<int>);
            return None;
        }
        p += 1;
    }
    None
}

/// `line.split(sep).nth(1)` for a non-empty `sep`.
pub fn second_piece_chars(line: &Vec<char>, sep: &Vec<char>) -> (r: Option<Vec<char>>)
    requires
        sep.len() > 0,
    ensures
        match r {
            Some(p) => second_piece(line@, sep@) == Some(p@),
            None => second_piece(line@, sep@) == None::<Seq<char>>,
        },
{
    match find_chars_from(line, sep, 0) {
        None => None,
        Some(i) => {
            assert(occurs_at(line@, sep@, i as int));
            assert(i + sep.len() <= line.len());
            let rest = suffix_chars(line, i + sep.len());
            match find_chars_from(&rest, sep, 0) {
                Some(j) => {
                    let mut out: Vec<char> = Vec::new();
                    let mut k: usize = 0;
                    while k < j
                        invariant
                            j <= rest.len(),
                            k <= j,
                            out@ == rest@.take(k as int),
                        decreases j - k,
                    {
                        out.push(rest[k]);
                        proof {
                            assert(rest@.take(k + 1) =~= rest@.take(k as int).push(rest@[k as int]));
                        }
                        k += 1;
                    }
                    Some(out)
                },
                None => Some(rest),
            }
        },
    }
}

} // verus!
