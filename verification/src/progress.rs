//! Progress of a matrix run: how many cases have finished, how many ended
//! in each status, and the lines that report it.
use vstd::prelude::*;
use crate::matrix::Case;
use crate::text::{
    chars_of, dec, extend_str, join, push_decimal, push_text, string_of, string_views, text_eq,
};
use crate::utils::{duration_text, format_seconds};

verus! {

// ---------------------------------------------------------------------
// Lexicographic order of texts
// ---------------------------------------------------------------------

/// `a` comes before `b` in the order of `str`'s `Ord` (character by
/// character, a proper prefix first).
pub open spec fn lex_lt(a: Seq<char>, b: Seq<char>) -> bool
    decreases a.len(),
{
    if a.len() == 0 {
        b.len() > 0
    } else if b.len() == 0 {
        false
    } else if a[0] != b[0] {
        a[0] < b[0]
    } else {
        lex_lt(a.drop_first(), b.drop_first())
    }
}

proof fn lemma_lex_irreflexive(a: Seq<char>)
    ensures
        !lex_lt(a, a),
    decreases a.len(),
{
    if a.len() > 0 {
        lemma_lex_irreflexive(a.drop_first());
    }
}

proof fn lemma_lex_total(a: Seq<char>, b: Seq<char>)
    ensures
        a == b || lex_lt(a, b) || lex_lt(b, a),
        !(lex_lt(a, b) && lex_lt(b, a)),
    decreases a.len(),
{
    if a.len() > 0 && b.len() > 0 {
        if a[0] == b[0] {
            lemma_lex_total(a.drop_first(), b.drop_first());
            if a.drop_first() == b.drop_first() {
                assert(a =~= seq![a[0]] + a.drop_first());
                assert(b =~= seq![b[0]] + b.drop_first());
            }
        }
    } else if a.len() == 0 && b.len() == 0 {
        assert(a =~= b);
    }
}

proof fn lemma_lex_transitive(a: Seq<char>, b: Seq<char>, c: Seq<char>)
    requires
        lex_lt(a, b),
        lex_lt(b, c),
    ensures
        lex_lt(a, c),
    decreases a.len(),
{
    if a.len() > 0 && b.len() > 0 && c.len() > 0 {
        if a[0] == b[0] && b[0] == c[0] {
            lemma_lex_transitive(a.drop_first(), b.drop_first(), c.drop_first());
        }
    }
}

/// Whether `a` comes before `b` (see `lex_lt`).
fn text_lt(a: &Vec<char>, b: &Vec<char>) -> (r: bool)
    ensures
        r == lex_lt(a@, b@),
{
    let mut i: usize = 0;
    proof {
        assert(a@.skip(0) =~= a@);
        assert(b@.skip(0) =~= b@);
    }
    while i < a.len() && i < b.len() && a[i] == b[i]
        invariant
            i <= a@.len(),
            i <= b@.len(),
            lex_lt(a@, b@) == lex_lt(a@.skip(i as int), b@.skip(i as int)),
        decreases a.len() - i,
    {
        proof {
            assert(a@.skip(i as int).drop_first() =~= a@.skip(i + 1));
            assert(b@.skip(i as int).drop_first() =~= b@.skip(i + 1));
        }
        i += 1;
    }
    if i == a.len() {
        i < b.len()
    } else if i == b.len() {
        false
    } else {
        proof {
            assert(a@.skip(i as int)[0] == a@[i as int]);
            assert(b@.skip(i as int)[0] == b@[i as int]);
        }
        a[i] < b[i]
    }
}

// ---------------------------------------------------------------------
// The tracker
// ---------------------------------------------------------------------

/// How many cases the parallel lists `names` and `counts` give `s`: the
/// counts of its entries, summed.
pub open spec fn tally(names: Seq<Seq<char>>, counts: Seq<usize>, s: Seq<char>) -> nat
    decreases names.len(),
{
    if names.len() == 0 || counts.len() == 0 {
        0
    } else {
        tally(names.drop_last(), counts.drop_last(), s) + if names.last() == s {
            counts.last() as nat
        } else {
            0nat
        }
    }
}

/// The counts summed.
pub open spec fn sum_counts(counts: Seq<usize>) -> nat
    decreases counts.len(),
{
    if counts.len() == 0 {
        0
    } else {
        sum_counts(counts.drop_last()) + counts.last() as nat
    }
}

proof fn lemma_sum_update(counts: Seq<usize>, k: int, v: usize)
    requires
        0 <= k < counts.len(),
    ensures
        sum_counts(counts.update(k, v)) + counts[k] == sum_counts(counts) + v,
    decreases counts.len(),
{
    if k == counts.len() - 1 {
        assert(counts.update(k, v).drop_last() =~= counts.drop_last());
    } else {
        assert(counts.update(k, v).drop_last() =~= counts.drop_last().update(k, v));
        lemma_sum_update(counts.drop_last(), k, v);
    }
}

proof fn lemma_sum_insert(counts: Seq<usize>, k: int, v: usize)
    requires
        0 <= k <= counts.len(),
    ensures
        sum_counts(counts.insert(k, v)) == sum_counts(counts) + v,
    decreases counts.len(),
{
    if k == counts.len() {
        assert(counts.insert(k, v).drop_last() =~= counts);
    } else {
        assert(counts.insert(k, v).drop_last() =~= counts.drop_last().insert(k, v));
        lemma_sum_insert(counts.drop_last(), k, v);
    }
}

proof fn lemma_tally_update(names: Seq<Seq<char>>, counts: Seq<usize>, k: int, v: usize, s: Seq<char>)
    requires
        names.len() == counts.len(),
        0 <= k < names.len(),
    ensures
        tally(names, counts.update(k, v), s) + (if names[k] == s { counts[k] as nat } else { 0nat })
            == tally(names, counts, s) + (if names[k] == s { v as nat } else { 0nat }),
    decreases names.len(),
{
    if k == names.len() - 1 {
        assert(counts.update(k, v).drop_last() =~= counts.drop_last());
    } else {
        assert(counts.update(k, v).drop_last() =~= counts.drop_last().update(k, v));
        lemma_tally_update(names.drop_last(), counts.drop_last(), k, v, s);
    }
}

proof fn lemma_tally_insert(names: Seq<Seq<char>>, counts: Seq<usize>, k: int, a: Seq<char>, v: usize, s: Seq<char>)
    requires
        names.len() == counts.len(),
        0 <= k <= names.len(),
    ensures
        tally(names.insert(k, a), counts.insert(k, v), s) == tally(names, counts, s) + (if a == s {
            v as nat
        } else {
            0nat
        }),
    decreases names.len(),
{
    if k == names.len() {
        assert(names.insert(k, a).drop_last() =~= names);
        assert(counts.insert(k, v).drop_last() =~= counts);
    } else {
        assert(names.insert(k, a).drop_last() =~= names.drop_last().insert(k, a));
        assert(counts.insert(k, v).drop_last() =~= counts.drop_last().insert(k, v));
        lemma_tally_insert(names.drop_last(), counts.drop_last(), k, a, v, s);
    }
}

/// The `status=count` entries of parallel lists of statuses and counts.
pub open spec fn status_entries(names: Seq<Seq<char>>, counts: Seq<usize>) -> Seq<Seq<char>> {
    Seq::new(names.len(), |i: int| names[i] + "="@ + dec(counts[i] as nat))
}

/// The progress of a run: `total` cases, `current` of them finished, and
/// how many finished in each status, the statuses kept in increasing
/// order.
pub struct ProgressTracker {
    pub total: usize,
    pub current: usize,
    /// The statuses seen, in increasing order.
    pub statuses: Vec<String>,
    /// How many cases finished with each of `statuses`.
    pub counts: Vec<usize>,
    /// The progress mode; `none` reports nothing.
    pub mode: String,
    /// Whether output goes to a terminal, where the progress line is
    /// rewritten in place.
    pub use_tty: bool,
}

impl ProgressTracker {
    /// The statuses seen, in increasing order.
    pub open spec fn status_names(&self) -> Seq<Seq<char>> {
        string_views(self.statuses@)
    }

    /// How many cases finished with each status, in the order of the
    /// statuses.
    pub open spec fn status_counts(&self) -> Seq<usize> {
        self.counts@
    }

    /// The tracker's invariant: one count per status, the statuses in
    /// strictly increasing order, each count positive and at most the
    /// number of finished cases.
    pub open spec fn wf(&self) -> bool {
        &&& self.statuses@.len() == self.counts@.len()
        &&& forall|i: int, j: int| 0 <= i < j < self.statuses@.len() ==> lex_lt(
            #[trigger] self.statuses@[i]@,
            #[trigger] self.statuses@[j]@,
        )
        &&& forall|i: int| 0 <= i < self.counts@.len() ==> 1 <= #[trigger] self.counts@[i] <= self.current
        &&& sum_counts(self.counts@) == self.current
    }

    /// How many cases finished with `status`.
    pub open spec fn count_of(&self, status: Seq<char>) -> nat {
        tally(self.status_names(), self.status_counts(), status)
    }

    /// Whether the tracker reports anything: it has cases to count and its
    /// mode is not `none`.
    pub open spec fn counting(&self) -> bool {
        self.total > 0 && self.mode@ != "none"@
    }

    /// A tracker for `total` cases.
    pub fn new(total: usize, mode: String, use_tty: bool) -> (t: ProgressTracker)
        ensures
            t.wf(),
            t.total == total,
            t.current == 0,
            t.mode == mode,
            t.use_tty == use_tty,
            t.status_names().len() == 0,
    {
        ProgressTracker {
            total,
            current: 0,
            statuses: Vec::new(),
            counts: Vec::new(),
            mode,
            use_tty,
        }
    }

    /// Whether the tracker reports anything.
    pub fn is_counting(&self) -> (r: bool)
        ensures
            r == self.counting(),
    {
        self.total > 0 && !text_eq(self.mode.as_str(), "none")
    }

    /// Counts a finished case with `status`, when the tracker reports
    /// anything; returns whether it did.
    pub fn update(&mut self, status: &str) -> (counted: bool)
        requires
            old(self).wf(),
            old(self).current < usize::MAX,
        ensures
            final(self).wf(),
            counted == old(self).counting(),
            final(self).total == old(self).total,
            final(self).mode == old(self).mode,
            final(self).use_tty == old(self).use_tty,
            !counted ==> final(self).current == old(self).current && final(self).status_names()
                == old(self).status_names() && final(self).status_counts() == old(self).status_counts(),
            counted ==> final(self).current == old(self).current + 1,
            counted ==> forall|s: Seq<char>| #[trigger] final(self).count_of(s) == old(self).count_of(s) + if s
                == status@ {
                1nat
            } else {
                0nat
            },
    {
        if !self.is_counting() {
            return false;
        }
        let ghost names0 = self.status_names();
        let ghost counts0 = self.counts@;
        let sv = chars_of(status);
        let n = self.statuses.len();
        let mut k: usize = 0;
        while k < n && text_lt(&chars_of(self.statuses[k].as_str()), &sv)
            invariant
                k <= n,
                n == self.statuses@.len(),
                sv@ == status@,
                forall|j: int| 0 <= j < k ==> lex_lt(#[trigger] self.statuses@[j]@, status@),
            decreases n - k,
        {
            k += 1;
        }
        let found = k < n && text_eq(self.statuses[k].as_str(), status);
        assert(self.counts@ == counts0);
        proof {
            if k < n && !found {
                lemma_lex_total(self.statuses@[k as int]@, status@);
            }
        }
        self.current = self.current + 1;
        if found {
            let c = self.counts[k];
            self.counts.set(k, c + 1);
            proof {
                lemma_sum_update(counts0, k as int, (c + 1) as usize);
                assert(self.status_names() == names0);
                assert forall|s: Seq<char>| #[trigger] self.count_of(s) == old(self).count_of(s) + if s
                    == status@ {
                    1nat
                } else {
                    0nat
                } by {
                    lemma_tally_update(names0, counts0, k as int, (c + 1) as usize, s);
                }
            }
        } else {
            self.statuses.insert(k, status.to_owned());
            self.counts.insert(k, 1);
            proof {
                lemma_sum_insert(counts0, k as int, 1);
                assert forall|i: int, j: int| 0 <= i < j < self.statuses@.len() implies lex_lt(
                    #[trigger] self.statuses@[i]@,
                    #[trigger] self.statuses@[j]@,
                ) by {
                    if j == k {
                        assert(self.statuses@[i] == old(self).statuses@[i]);
                    } else if i == k {
                        assert(self.statuses@[j] == old(self).statuses@[j - 1]);
                        if j - 1 > k {
                            assert(lex_lt(old(self).statuses@[k as int]@, old(self).statuses@[j - 1]@));
                            lemma_lex_transitive(status@, old(self).statuses@[k as int]@, old(self).statuses@[j - 1]@);
                        }
                    } else if i < k && j > k {
                        assert(self.statuses@[i] == old(self).statuses@[i]);
                        assert(self.statuses@[j] == old(self).statuses@[j - 1]);
                        assert(lex_lt(old(self).statuses@[i]@, old(self).statuses@[j - 1]@));
                    } else if j < k {
                        assert(self.statuses@[i] == old(self).statuses@[i]);
                        assert(self.statuses@[j] == old(self).statuses@[j]);
                    } else {
                        assert(self.statuses@[i] == old(self).statuses@[i - 1]);
                        assert(self.statuses@[j] == old(self).statuses@[j - 1]);
                    }
                }
                assert forall|s: Seq<char>| #[trigger] self.count_of(s) == old(self).count_of(s) + if s
                    == status@ {
                    1nat
                } else {
                    0nat
                } by {
                    lemma_tally_insert(names0, counts0, k as int, status@, 1, s);
                    assert(self.status_names() =~= names0.insert(k as int, status@));
                }
            }
        }
        true
    }

    /// The progress line for a case that finished with `status`:
    /// `进度 {current}/{total} ({percent}%) ETA {eta} | {status} | {case id}`,
    /// `percent` and `eta_seconds` being the share done and the estimated
    /// time left, which the caller works out from the clock.
    pub fn message(&self, case: &Case, status: &str, percent: &str, eta_seconds: u64) -> (m: String)
        ensures
            m@ == "进度 "@ + dec(self.current as nat) + "/"@ + dec(self.total as nat) + " ("@ + percent@
                + "%) ETA "@ + duration_text(eta_seconds as nat) + " | "@ + status@ + " | "@
                + case.id_text(),
    {
        let mut v: Vec<char> = Vec::new();
        extend_str(&mut v, "进度 ");
        push_decimal(&mut v, self.current);
        extend_str(&mut v, "/");
        push_decimal(&mut v, self.total);
        extend_str(&mut v, " (");
        extend_str(&mut v, percent);
        extend_str(&mut v, "%) ETA ");
        let eta = format_seconds(eta_seconds);
        extend_str(&mut v, eta.as_str());
        extend_str(&mut v, " | ");
        extend_str(&mut v, status);
        extend_str(&mut v, " | ");
        let id = case.case_id();
        extend_str(&mut v, id.as_str());
        string_of(&v)
    }

    /// Whether the progress line is still being rewritten in place: output
    /// goes to a terminal and cases are left.
    pub open spec fn line_open(&self) -> bool {
        self.use_tty && self.current < self.total
    }

    /// What ends a progress line: a carriage return while the line is
    /// rewritten in place, else a newline.
    pub fn line_end(&self) -> (e: String)
        ensures
            e@ == if self.line_open() { "\r"@ } else { "\n"@ },
    {
        if self.use_tty && self.current < self.total {
            "\r".to_owned()
        } else {
            "\n".to_owned()
        }
    }

    /// Whether a message interrupting the progress line needs a line break
    /// before it.
    pub fn breaks_before_message(&self) -> (r: bool)
        ensures
            r == self.line_open(),
    {
        self.use_tty && self.current < self.total
    }

    /// Whether messages are shown at all (the mode is not `none`).
    pub fn shows_messages(&self) -> (r: bool)
        ensures
            r == (self.mode@ != "none"@),
    {
        !text_eq(self.mode.as_str(), "none")
    }

    /// The text of the closing line.
    pub open spec fn summary_text(&self) -> Seq<char> {
        "进度完成: "@ + dec(self.current as nat) + "/"@ + dec(self.total as nat) + " | "@ + join(
            status_entries(self.status_names(), self.status_counts()),
            ", "@,
        )
    }

    /// What writing `message` puts out: nothing when the mode is `none`;
    /// else the message and a newline, after a line break while the
    /// progress line is open.
    pub fn write(&self, message: String) -> (out: Option<String>)
        ensures
            out is None <==> self.mode@ == "none"@,
            out matches Some(t) ==> t@ == (if self.line_open() {
                "\n"@
            } else {
                Seq::<char>::empty()
            }) + message@ + "\n"@,
    {
        if !self.shows_messages() {
            return None;
        }
        let mut v: Vec<char> = Vec::new();
        if self.breaks_before_message() {
            extend_str(&mut v, "\n");
        }
        extend_str(&mut v, message.as_str());
        extend_str(&mut v, "\n");
        proof {
            assert(v@ =~= (if self.line_open() {
                "\n"@
            } else {
                Seq::<char>::empty()
            }) + message@ + "\n"@);
        }
        Some(string_of(&v))
    }

    /// What closing the tracker puts out: the closing line and a newline,
    /// after a line break on a terminal; nothing when the tracker reports
    /// nothing.
    pub fn close(&self) -> (out: Option<String>)
        requires
            self.wf(),
        ensures
            out is None <==> !self.counting(),
            out matches Some(t) ==> t@ == (if self.use_tty {
                "\n"@
            } else {
                Seq::<char>::empty()
            }) + self.summary_text() + "\n"@,
    {
        match self.summary_line() {
            None => None,
            Some(line) => {
                let mut v: Vec<char> = Vec::new();
                if self.use_tty {
                    extend_str(&mut v, "\n");
                }
                extend_str(&mut v, line.as_str());
                extend_str(&mut v, "\n");
                proof {
                    assert(v@ =~= (if self.use_tty {
                        "\n"@
                    } else {
                        Seq::<char>::empty()
                    }) + self.summary_text() + "\n"@);
                }
                Some(string_of(&v))
            },
        }
    }

    /// The closing line: `进度完成: {current}/{total} | ` and each status
    /// with its count (`status=count`, in increasing order of status,
    /// separated by `, `); `None` when the tracker reports nothing.
    pub fn summary_line(&self) -> (r: Option<String>)
        requires
            self.wf(),
        ensures
            r is None <==> !self.counting(),
            r matches Some(line) ==> line@ == self.summary_text(),
    {
        if !self.is_counting() {
            return None;
        }
        let mut entries: Vec<String> = Vec::new();
        let mut i: usize = 0;
        while i < self.statuses.len()
            invariant
                self.wf(),
                i <= self.statuses@.len(),
                string_views(entries@) =~= status_entries(self.status_names(), self.status_counts()).take(i as int),
            decreases self.statuses@.len() - i,
        {
            let mut v: Vec<char> = Vec::new();
            extend_str(&mut v, self.statuses[i].as_str());
            extend_str(&mut v, "=");
            push_decimal(&mut v, self.counts[i]);
            let ghost before = string_views(entries@);
            push_text(&mut entries, string_of(&v));
            proof {
                assert(status_entries(self.status_names(), self.status_counts()).take(i + 1) =~= before.push(v@));
            }
            i += 1;
        }
        let joined = crate::text::join_strings(entries.as_slice(), ", ");
        let mut v: Vec<char> = Vec::new();
        extend_str(&mut v, "进度完成: ");
        push_decimal(&mut v, self.current);
        extend_str(&mut v, "/");
        push_decimal(&mut v, self.total);
        extend_str(&mut v, " | ");
        extend_str(&mut v, joined.as_str());
        proof {
            assert(string_views(entries@) =~= status_entries(self.status_names(), self.status_counts()));
        }
        Some(string_of(&v))
    }
}

/// The counts of a well-formed tracker add up to the number of finished
/// cases, and its statuses are listed once each, in increasing order.
pub proof fn law_status_counts_add_up(t: ProgressTracker)
    requires
        t.wf(),
    ensures
        sum_counts(t.status_counts()) == t.current,
        forall|i: int, j: int| 0 <= i < j < t.status_names().len() ==> lex_lt(
            #[trigger] t.status_names()[i],
            #[trigger] t.status_names()[j],
        ),
        forall|i: int, j: int| 0 <= i < j < t.status_names().len() ==> t.status_names()[i] != t.status_names()[j],
{
    assert forall|i: int, j: int| 0 <= i < j < t.status_names().len() implies lex_lt(
        #[trigger] t.status_names()[i],
        #[trigger] t.status_names()[j],
    ) by {
        assert(t.status_names()[i] == t.statuses@[i]@);
        assert(t.status_names()[j] == t.statuses@[j]@);
    }
    assert forall|i: int, j: int| 0 <= i < j < t.status_names().len() implies t.status_names()[i] != t.status_names()[j] by {
        assert(lex_lt(t.statuses@[i]@, t.statuses@[j]@));
        lemma_lex_irreflexive(t.statuses@[i]@);
    }
}

} // verus!
