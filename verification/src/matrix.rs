//! Test cases of the benchmark matrix: parsing of ranges, lists and GPU
//! device selections, sampling of points, and grouping of cases.
use vstd::prelude::*;
use crate::sorted::{increasing, lemma_listing_of, lemma_push_to_set, sorted_insert, sorted_listing};
use vstd::arithmetic::div_mod::{lemma_div_is_ordered, lemma_multiply_divide_lt};
use vstd::arithmetic::power2::{lemma2_to64, lemma_pow2_strictly_increases, lemma_pow2_unfold, pow2};
use crate::text::{
    all_ascii_digits, chars_eq_str, chars_of, contains_usize, dec, extend_chars, is_digit, join,
    join_chars, lowered, starts_with, starts_with_chars, string_views, strings_of, to_lowercase,
    to_uppercase, uppered, extend_str, has_char, parse_usize, parse_usize_chars, push_decimal,
    remove_char, remove_chars, replace_char, replace_chars, split_chars, split_on,
    split_once, split_once_chars, string_of, trim, trim_chars, views, IntErrorKind,
};

verus! {

/// Extra context, in tokens, that each server slot gets beyond a case's
/// input and output lengths.
pub const CTX_MARGIN: usize = 16;

/// What went wrong when a matrix parameter was read.
#[derive(Clone, Copy, Debug, PartialEq, Eq, Structural)]
pub enum MatrixErrorKind {
    /// A number in the text does not parse as `usize`.
    InvalidNumber(IntErrorKind),
    /// A range whose bounds are not both positive with the low end first.
    InvalidRange,
    /// A list with no text in it.
    EmptyList,
    /// A list item of zero.
    NonPositiveItem,
    /// A GPU index range whose low end exceeds its high end.
    ReversedDeviceRange,
    /// A device selection that names no device.
    NoDevices,
}

/// An error in a matrix parameter, with the parameter's name and its text.
#[derive(Clone, Debug)]
pub struct MatrixError {
    pub kind: MatrixErrorKind,
    pub name: String,
    pub value: String,
}

/// One point of the benchmark matrix.
#[derive(Clone, Debug, PartialEq, Eq, Hash)]
pub struct Case {
    pub parallel_size: usize,
    pub num_prompts: usize,
    pub input_len: usize,
    pub output_len: usize,
    pub input_bucket: String,
    pub output_bucket: String,
    pub concurrency_bucket: String,
}

impl Case {
    /// The identifier of the case, `p{parallel}-c{prompts}-{in}in-{out}out-i{input}-o{output}`.
    pub open spec fn id_text(self) -> Seq<char> {
        "p"@ + dec(self.parallel_size as nat) + "-c"@ + dec(self.num_prompts as nat) + "-"@
            + self.input_bucket@ + "in-"@ + self.output_bucket@ + "out-i"@ + dec(
            self.input_len as nat,
        ) + "-o"@ + dec(self.output_len as nat)
    }

    /// The context each server slot needs for this case.
    pub open spec fn context_needed(self) -> int {
        self.input_len + self.output_len + CTX_MARGIN
    }

    /// The identifier of the case.
    pub fn case_id(&self) -> (id: String)
        ensures
            id@ == self.id_text(),
    {
        let mut v: Vec<char> = Vec::new();
        extend_str(&mut v, "p");
        push_decimal(&mut v, self.parallel_size);
        extend_str(&mut v, "-c");
        push_decimal(&mut v, self.num_prompts);
        extend_str(&mut v, "-");
        extend_str(&mut v, self.input_bucket.as_str());
        extend_str(&mut v, "in-");
        extend_str(&mut v, self.output_bucket.as_str());
        extend_str(&mut v, "out-i");
        push_decimal(&mut v, self.input_len);
        extend_str(&mut v, "-o");
        push_decimal(&mut v, self.output_len);
        string_of(&v)
    }

    /// The context, in tokens, that one server slot needs for this case.
    pub fn required_context_per_slot(&self) -> (n: usize)
        requires
            self.context_needed() <= usize::MAX,
        ensures
            n == self.context_needed(),
    {
        self.input_len + self.output_len + CTX_MARGIN
    }

    /// A copy of the case.
    pub fn duplicate(&self) -> (c: Case)
        ensures
            c == *self,
    {
        Case {
            parallel_size: self.parallel_size,
            num_prompts: self.num_prompts,
            input_len: self.input_len,
            output_len: self.output_len,
            input_bucket: self.input_bucket.clone(),
            output_bucket: self.output_bucket.clone(),
            concurrency_bucket: self.concurrency_bucket.clone(),
        }
    }
}

// ---------------------------------------------------------------------
// Ranges and lists
// ---------------------------------------------------------------------

/// The text of a range after normalisation: trimmed, `~` read as `-`, the
/// full-width comma read as `,`, spaces removed.
pub open spec fn range_text(value: Seq<char>) -> Seq<char> {
    remove_char(replace_char(replace_char(trim(value), '~', '-'), '，', ','), ' ')
}

/// The two bound texts of a normalised range: split at the first `-`, else
/// at the first `,`, else the whole text twice.
pub open spec fn range_parts(n: Seq<char>) -> (Seq<char>, Seq<char>) {
    if n.contains('-') {
        split_once(n, '-')
    } else if n.contains(',') {
        split_once(n, ',')
    } else {
        (n, n)
    }
}

/// The bounds a range text denotes.
pub open spec fn range_of(value: Seq<char>) -> Result<(usize, usize), MatrixErrorKind> {
    let (a, b) = range_parts(range_text(value));
    match parse_usize(a) {
        Err(k) => Err(MatrixErrorKind::InvalidNumber(k)),
        Ok(lo) => match parse_usize(b) {
            Err(k) => Err(MatrixErrorKind::InvalidNumber(k)),
            Ok(hi) => if lo == 0 || hi == 0 || lo > hi {
                Err(MatrixErrorKind::InvalidRange)
            } else {
                Ok((lo, hi))
            },
        },
    }
}

/// The text of a list after normalisation: trimmed, the full-width comma
/// read as `,`, spaces removed.
pub open spec fn list_text(value: Seq<char>) -> Seq<char> {
    remove_char(replace_char(trim(value), '，', ','), ' ')
}

/// The values of the list items, each parsed and checked positive in order,
/// keeping the first occurrence of each value.
pub open spec fn list_items(parts: Seq<Seq<char>>) -> Result<Seq<usize>, MatrixErrorKind>
    decreases parts.len(),
{
    if parts.len() == 0 {
        Ok(Seq::empty())
    } else {
        match list_items(parts.drop_last()) {
            Err(e) => Err(e),
            Ok(acc) => match parse_usize(parts.last()) {
                Err(k) => Err(MatrixErrorKind::InvalidNumber(k)),
                Ok(v) => if v == 0 {
                    Err(MatrixErrorKind::NonPositiveItem)
                } else if acc.contains(v) {
                    Ok(acc)
                } else {
                    Ok(acc.push(v))
                },
            },
        }
    }
}

proof fn lemma_list_items_err(ps: Seq<Seq<char>>, j: int)
    requires
        0 <= j <= ps.len(),
        list_items(ps.take(j)) is Err,
    ensures
        list_items(ps) == list_items(ps.take(j)),
    decreases ps.len(),
{
    if j == ps.len() {
        assert(ps.take(j) =~= ps);
    } else {
        assert(ps.drop_last().take(j) =~= ps.take(j));
        lemma_list_items_err(ps.drop_last(), j);
    }
}

/// The values a comma-separated list text denotes.
pub open spec fn list_of(value: Seq<char>) -> Result<Seq<usize>, MatrixErrorKind> {
    let n = list_text(value);
    if n.len() == 0 {
        Err(MatrixErrorKind::EmptyList)
    } else {
        list_items(split_on(n, ','))
    }
}

fn matrix_error(kind: MatrixErrorKind, name: &str, value: &str) -> (e: MatrixError)
    ensures
        e.kind == kind,
        e.name@ == name@,
        e.value@ == value@,
{
    MatrixError { kind, name: name.to_owned(), value: value.to_owned() }
}

/// Parses a range such as `64-4096`, `512,50000`, `64~4096` or `128` (a
/// single value stands for both bounds). Both bounds must be positive and
/// the low one must not exceed the high one.
pub fn parse_range(value: &str, name: &str) -> (r: Result<(usize, usize), MatrixError>)
    ensures
        match r {
            Ok(b) => range_of(value@) == Ok::<(usize, usize), MatrixErrorKind>(b),
            Err(e) => range_of(value@) == Err::<(usize, usize), MatrixErrorKind>(e.kind)
                && e.name@ == name@ && e.value@ == value@,
        },
{
    let raw = chars_of(value);
    let t = trim_chars(&raw);
    let t = replace_chars(&t, '~', '-');
    let t = replace_chars(&t, '，', ',');
    let n = remove_chars(&t, ' ');
    let ghost parts = range_parts(n@);
    let (a, b) = if has_char(&n, '-') {
        match split_once_chars(&n, '-') {
            Some(p) => p,
            None => (Vec::new(), Vec::new()),
        }
    } else if has_char(&n, ',') {
        match split_once_chars(&n, ',') {
            Some(p) => p,
            None => (Vec::new(), Vec::new()),
        }
    } else {
        (n.clone(), n)
    };
    assert(a@ == parts.0 && b@ == parts.1);
    let lo = match parse_usize_chars(&a) {
        Ok(v) => v,
        Err(k) => {
            return Err(matrix_error(MatrixErrorKind::InvalidNumber(k), name, value));
        },
    };
    let hi = match parse_usize_chars(&b) {
        Ok(v) => v,
        Err(k) => {
            return Err(matrix_error(MatrixErrorKind::InvalidNumber(k), name, value));
        },
    };
    if lo == 0 || hi == 0 || lo > hi {
        return Err(matrix_error(MatrixErrorKind::InvalidRange, name, value));
    }
    Ok((lo, hi))
}

/// Parses a comma-separated list of positive integers such as `1,4,8`;
/// repeated values are kept once, at their first position.
pub fn parse_int_list(value: &str, name: &str) -> (r: Result<Vec<usize>, MatrixError>)
    ensures
        match r {
            Ok(v) => list_of(value@) == Ok::<Seq<usize>, MatrixErrorKind>(v@),
            Err(e) => list_of(value@) == Err::<Seq<usize>, MatrixErrorKind>(e.kind)
                && e.name@ == name@ && e.value@ == value@,
        },
{
    let raw = chars_of(value);
    let t = trim_chars(&raw);
    let t = replace_chars(&t, '，', ',');
    let n = remove_chars(&t, ' ');
    if n.len() == 0 {
        return Err(matrix_error(MatrixErrorKind::EmptyList, name, value));
    }
    let parts = split_chars(&n, ',');
    let ghost ps = views(parts@);
    let mut out: Vec<usize> = Vec::new();
    let mut i: usize = 0;
    proof {
        assert(ps.take(0) =~= Seq::<Seq<char>>::empty());
    }
    while i < parts.len()
        invariant
            i <= parts.len(),
            ps == views(parts@),
            ps == split_on(n@, ','),
            n@ == list_text(value@),
            n@.len() > 0,
            list_items(ps.take(i as int)) == Ok::<Seq<usize>, MatrixErrorKind>(out@),
        decreases parts.len() - i,
    {
        proof {
            assert(ps.take(i + 1).drop_last() =~= ps.take(i as int));
            assert(ps.take(i + 1).last() == parts@[i as int]@);
        }
        let item = match parse_usize_chars(&parts[i]) {
            Ok(v) => v,
            Err(k) => {
                proof {
                    assert(list_items(ps.take(i + 1)) == Err::<Seq<usize>, MatrixErrorKind>(MatrixErrorKind::InvalidNumber(k)));
                    lemma_list_items_err(ps, i + 1);
                    assert(n@ == list_text(value@));
                    assert(list_of(value@) == Err::<Seq<usize>, MatrixErrorKind>(MatrixErrorKind::InvalidNumber(k)));
                }
                return Err(matrix_error(MatrixErrorKind::InvalidNumber(k), name, value));
            },
        };
        if item == 0 {
            proof {
                lemma_list_items_err(ps, i + 1);
            }
            return Err(matrix_error(MatrixErrorKind::NonPositiveItem, name, value));
        }
        if !contains_usize(&out, item) {
            out.push(item);
        }
        i += 1;
    }
    proof {
        assert(ps.take(parts.len() as int) =~= ps);
    }
    Ok(out)
}

// ---------------------------------------------------------------------
// GPU device selections
// ---------------------------------------------------------------------

/// The text of a device selection after normalisation: trimmed, the
/// full-width comma read as `,`, spaces removed, lowercased.
pub open spec fn gpu_text(value: Seq<char>) -> Seq<char> {
    lowered(remove_char(replace_char(trim(value), '，', ','), ' '))
}

/// The name of the CUDA device with index `i`.
pub open spec fn cuda_name(i: nat) -> Seq<char> {
    "CUDA"@ + dec(i)
}

/// The names of the CUDA devices `lo..=hi`.
pub open spec fn cuda_names(lo: nat, hi: nat) -> Seq<Seq<char>> {
    Seq::new((hi + 1 - lo) as nat, |k: int| cuda_name((lo + k) as nat))
}

/// Every character of `p` is an ASCII digit.
pub open spec fn all_digits(p: Seq<char>) -> bool {
    forall|k: int| 0 <= k < p.len() ==> is_digit(p[k])
}

/// The devices that one comma-separated item of a selection names: a range
/// `lo-hi` of CUDA indices, a bare index, or a device name (uppercased).
pub open spec fn part_devices(p: Seq<char>) -> Result<Seq<Seq<char>>, MatrixErrorKind> {
    if p.len() == 0 {
        Ok(Seq::empty())
    } else if p.contains('-') && !starts_with(uppered(p), "CUDA"@) {
        let (a, b) = split_once(p, '-');
        match parse_usize(a) {
            Err(k) => Err(MatrixErrorKind::InvalidNumber(k)),
            Ok(lo) => match parse_usize(b) {
                Err(k) => Err(MatrixErrorKind::InvalidNumber(k)),
                Ok(hi) => if lo > hi {
                    Err(MatrixErrorKind::ReversedDeviceRange)
                } else {
                    Ok(cuda_names(lo as nat, hi as nat))
                },
            },
        }
    } else if all_digits(p) {
        Ok(seq!["CUDA"@ + p])
    } else {
        Ok(seq![uppered(p)])
    }
}

/// The devices that a sequence of selection items names, in order.
pub open spec fn devices_of(parts: Seq<Seq<char>>) -> Result<Seq<Seq<char>>, MatrixErrorKind>
    decreases parts.len(),
{
    if parts.len() == 0 {
        Ok(Seq::empty())
    } else {
        match devices_of(parts.drop_last()) {
            Err(e) => Err(e),
            Ok(acc) => match part_devices(parts.last()) {
                Err(e) => Err(e),
                Ok(ds) => Ok(acc + ds),
            },
        }
    }
}

/// The label and device list that a normalised selection text denotes:
/// `all` (or nothing) selects every device and passes none; `none` or `cpu`
/// selects no GPU.
pub open spec fn gpu_selection(n: Seq<char>) -> Result<(Seq<char>, Seq<Seq<char>>), MatrixErrorKind> {
    if n.len() == 0 || n == "all"@ {
        Ok(("all"@, Seq::empty()))
    } else if n == "none"@ || n == "cpu"@ {
        Ok(("none"@, seq!["none"@]))
    } else {
        match devices_of(split_on(n, ',')) {
            Err(e) => Err(e),
            Ok(d) => if d.len() == 0 {
                Err(MatrixErrorKind::NoDevices)
            } else {
                Ok((join(d, ","@), d))
            },
        }
    }
}

proof fn lemma_devices_of_err(ps: Seq<Seq<char>>, j: int)
    requires
        0 <= j <= ps.len(),
        devices_of(ps.take(j)) is Err,
    ensures
        devices_of(ps) == devices_of(ps.take(j)),
    decreases ps.len(),
{
    if j == ps.len() {
        assert(ps.take(j) =~= ps);
    } else {
        assert(ps.drop_last().take(j) =~= ps.take(j));
        lemma_devices_of_err(ps.drop_last(), j);
    }
}

/// The CUDA device names `lo..=hi`.
fn cuda_range(lo: usize, hi: usize) -> (out: Vec<Vec<char>>)
    requires
        lo <= hi,
    ensures
        views(out@) == cuda_names(lo as nat, hi as nat),
{
    let mut out: Vec<Vec<char>> = Vec::new();
    let mut i: usize = lo;
    loop
        invariant
            lo <= i <= hi,
            views(out@) =~= cuda_names(lo as nat, (i - 1) as nat).take(i - lo),
        decreases hi - i,
    {
        let mut name: Vec<char> = Vec::new();
        extend_str(&mut name, "CUDA");
        push_decimal(&mut name, i);
        let ghost before = views(out@);
        out.push(name);
        proof {
            assert(views(out@) =~= before.push(cuda_name(i as nat)));
            assert(Seq::<char>::empty() + "CUDA"@ + dec(i as nat) =~= cuda_name(i as nat));
        }
        if i == hi {
            proof {
                assert(views(out@) =~= cuda_names(lo as nat, hi as nat));
            }
            return out;
        }
        i += 1;
    }
}

/// The devices named by one normalised item of a device selection, given
/// the item's uppercase form.
pub fn gpu_part_devices(part: &Vec<char>, upper: &Vec<char>) -> (r: Result<Vec<Vec<char>>, MatrixErrorKind>)
    requires
        upper@ == uppered(part@),
    ensures
        match r {
            Ok(d) => part_devices(part@) == Ok::<Seq<Seq<char>>, MatrixErrorKind>(views(d@)),
            Err(k) => part_devices(part@) == Err::<Seq<Seq<char>>, MatrixErrorKind>(k),
        },
{
    if part.len() == 0 {
        let out: Vec<Vec<char>> = Vec::new();
        proof {
            assert(views(out@) =~= Seq::<Seq<char>>::empty());
        }
        return Ok(out);
    }
    let cuda = chars_of("CUDA");
    if has_char(part, '-') && !starts_with_chars(upper, &cuda) {
        let (a, b) = match split_once_chars(part, '-') {
            Some(p) => p,
            None => (Vec::new(), Vec::new()),
        };
        let lo = match parse_usize_chars(&a) {
            Ok(v) => v,
            Err(k) => {
                return Err(MatrixErrorKind::InvalidNumber(k));
            },
        };
        let hi = match parse_usize_chars(&b) {
            Ok(v) => v,
            Err(k) => {
                return Err(MatrixErrorKind::InvalidNumber(k));
            },
        };
        if lo > hi {
            return Err(MatrixErrorKind::ReversedDeviceRange);
        }
        Ok(cuda_range(lo, hi))
    } else if all_ascii_digits(part) {
        let mut name = cuda;
        extend_chars(&mut name, part);
        let mut out: Vec<Vec<char>> = Vec::new();
        out.push(name);
        proof {
            assert(views(out@) =~= seq!["CUDA"@ + part@]);
        }
        Ok(out)
    } else {
        let mut out: Vec<Vec<char>> = Vec::new();
        out.push(upper.clone());
        proof {
            assert(views(out@) =~= seq![uppered(part@)]);
        }
        Ok(out)
    }
}

/// The label and device list of a normalised device selection text (see
/// `gpu_selection`).
pub fn parse_gpu_selection(normalized: &str) -> (r: Result<(String, Vec<String>), MatrixErrorKind>)
    ensures
        match r {
            Ok((label, devices)) => gpu_selection(normalized@) == Ok::<
                (Seq<char>, Seq<Seq<char>>),
                MatrixErrorKind,
            >((label@, string_views(devices@))),
            Err(k) => gpu_selection(normalized@) == Err::<
                (Seq<char>, Seq<Seq<char>>),
                MatrixErrorKind,
            >(k),
        },
{
    let n = chars_of(normalized);
    if n.len() == 0 || chars_eq_str(&n, "all") {
        let devices: Vec<String> = Vec::new();
        proof {
            assert(string_views(devices@) =~= Seq::<Seq<char>>::empty());
        }
        return Ok(("all".to_owned(), devices));
    }
    if chars_eq_str(&n, "none") || chars_eq_str(&n, "cpu") {
        let mut devices: Vec<String> = Vec::new();
        devices.push("none".to_owned());
        proof {
            assert(string_views(devices@) =~= seq!["none"@]);
        }
        return Ok(("none".to_owned(), devices));
    }
    let parts = split_chars(&n, ',');
    let ghost ps = views(parts@);
    let mut acc: Vec<Vec<char>> = Vec::new();
    let mut i: usize = 0;
    proof {
        assert(ps.take(0) =~= Seq::<Seq<char>>::empty());
        assert(views(acc@) =~= Seq::<Seq<char>>::empty());
    }
    while i < parts.len()
        invariant
            i <= parts.len(),
            ps == views(parts@),
            ps == split_on(n@, ','),
            n@ == normalized@,
            n@.len() > 0 && n@ != "all"@ && n@ != "none"@ && n@ != "cpu"@,
            devices_of(ps.take(i as int)) == Ok::<Seq<Seq<char>>, MatrixErrorKind>(views(acc@)),
        decreases parts.len() - i,
    {
        proof {
            assert(ps.take(i + 1).drop_last() =~= ps.take(i as int));
            assert(ps.take(i + 1).last() == parts@[i as int]@);
        }
        let part_text = string_of(&parts[i]);
        let upper_text = to_uppercase(part_text.as_str());
        let upper = chars_of(upper_text.as_str());
        match gpu_part_devices(&parts[i], &upper) {
            Err(k) => {
                proof {
                    lemma_devices_of_err(ps, i + 1);
                }
                return Err(k);
            },
            Ok(ds) => {
                let ghost before = views(acc@);
                let mut j: usize = 0;
                while j < ds.len()
                    invariant
                        j <= ds.len(),
                        views(acc@) =~= before + views(ds@).take(j as int),
                    decreases ds.len() - j,
                {
                    let ghost mid = views(acc@);
                    let item = ds[j].clone();
                    acc.push(item);
                    proof {
                        assert(views(acc@) =~= mid.push(item@));
                        assert(views(ds@).take(j + 1) =~= views(ds@).take(j as int).push(ds@[j as int]@));
                    }
                    j += 1;
                }
                proof {
                    assert(views(ds@).take(ds.len() as int) =~= views(ds@));
                }
            },
        }
        i += 1;
    }
    proof {
        assert(ps.take(parts.len() as int) =~= ps);
    }
    if acc.len() == 0 {
        return Err(MatrixErrorKind::NoDevices);
    }
    let comma = chars_of(",");
    let label = join_chars(&acc, &comma);
    let devices = strings_of(&acc);
    Ok((string_of(&label), devices))
}

/// Parses a GPU device selection such as `all`, `none`, `0-2`, `0,2,4` or
/// `CUDA0,CUDA1` into its label and the devices to pass to the server.
pub fn parse_gpu_devices(value: &str) -> (r: Result<(String, Vec<String>), MatrixError>)
    ensures
        match r {
            Ok((label, devices)) => gpu_selection(gpu_text(value@)) == Ok::<
                (Seq<char>, Seq<Seq<char>>),
                MatrixErrorKind,
            >((label@, string_views(devices@))),
            Err(e) => gpu_selection(gpu_text(value@)) == Err::<
                (Seq<char>, Seq<Seq<char>>),
                MatrixErrorKind,
            >(e.kind) && e.value@ == value@,
        },
{
    let raw = chars_of(value);
    let t = trim_chars(&raw);
    let t = replace_chars(&t, '，', ',');
    let t = remove_chars(&t, ' ');
    let t = string_of(&t);
    let normalized = to_lowercase(t.as_str());
    match parse_gpu_selection(normalized.as_str()) {
        Ok(sel) => Ok(sel),
        Err(k) => Err(matrix_error(k, "gpu_devices", value)),
    }
}

// ---------------------------------------------------------------------
// Sampling of points
// ---------------------------------------------------------------------

/// `n` is a power of two.
pub open spec fn is_pow2(n: nat) -> bool
    decreases n,
{
    if n == 1 {
        true
    } else if n < 2 || n % 2 == 1 {
        false
    } else {
        is_pow2(n / 2)
    }
}

/// The powers of two in `lo..=hi`.
pub open spec fn pow2_set(lo: usize, hi: usize) -> Set<usize> {
    Set::new(|p: usize| is_pow2(p as nat) && lo <= p && p <= hi)
}

/// The candidate points of a range: its ends and the powers of two between.
pub open spec fn candidate_set(lo: usize, hi: usize) -> Set<usize> {
    pow2_set(lo, hi).insert(lo).insert(hi)
}

/// The index that sample `i` of `limit` takes among `n` values spread
/// evenly: `i * (n - 1) / (limit - 1)` rounded to the nearest integer, a
/// half rounded up.
pub open spec fn sample_index(i: int, n: int, limit: int) -> int {
    (2 * i * (n - 1) + (limit - 1)) / (2 * (limit - 1))
}

/// The values that `limit` evenly spread samples of `vals` pick: all of
/// them when there are at most `limit`, else the first when `limit <= 1`.
pub open spec fn sample_set(vals: Seq<usize>, limit: nat) -> Set<usize> {
    if vals.len() <= limit {
        vals.to_set()
    } else if limit <= 1 {
        set![vals[0]]
    } else {
        Seq::new(limit, |i: int| vals[sample_index(i, vals.len() as int, limit as int)]).to_set()
    }
}

/// The points `nice_points` picks in `lo..=hi`: the ends and evenly spread
/// samples of the candidate points.
pub open spec fn nice_set(lo: usize, hi: usize, max_points: usize) -> Set<usize> {
    if lo == hi {
        set![lo]
    } else {
        sample_set(sorted_listing(candidate_set(lo, hi)), max_points as nat).insert(lo).insert(
            hi,
        )
    }
}

/// Doubling stays within `usize` while walking the powers of two up to `hi`.
pub open spec fn doubling_fits(lo: usize, hi: usize) -> bool {
    lo <= usize::MAX / 2 + 1 && hi <= usize::MAX / 2
}

proof fn lemma_pow2_gap(p: nat, n: nat)
    requires
        is_pow2(p),
        is_pow2(n),
        p > n,
    ensures
        p >= 2 * n,
    decreases n,
{
    if n == 1 {
    } else {
        lemma_pow2_gap(p / 2, n / 2);
    }
}

proof fn lemma_pow2_double(n: nat)
    requires
        is_pow2(n),
    ensures
        is_pow2(2 * n),
{
    assert((2 * n) / 2 == n);
}

/// The powers of two in `lo..=hi`, in increasing order.
fn powers_of_two_between(lo: usize, hi: usize) -> (out: Vec<usize>)
    requires
        doubling_fits(lo, hi),
    ensures
        increasing(out@),
        out@.to_set() == pow2_set(lo, hi),
        out@.len() <= 64,
{
    let mut vals: Vec<usize> = Vec::new();
    let mut n: usize = 1;
    while n < lo
        invariant
            n >= 1,
            is_pow2(n as nat),
            doubling_fits(lo, hi),
            forall|p: nat| is_pow2(p) && p < n ==> p < lo,
        decreases usize::MAX - n,
    {
        proof {
            assert forall|p: nat| is_pow2(p) && p < 2 * n implies p < lo by {
                if p > n {
                    lemma_pow2_gap(p, n as nat);
                }
            }
            lemma_pow2_double(n as nat);
        }
        n *= 2;
    }
    proof {
        lemma2_to64();
    }
    while n <= hi
        invariant
            n >= 1,
            n >= lo,
            is_pow2(n as nat),
            doubling_fits(lo, hi),
            increasing(vals@),
            n as nat >= pow2(vals@.len()),
            forall|k: int| 0 <= k < vals@.len() ==> vals@[k] < n && vals@[k] <= hi,
            forall|p: usize| #![trigger vals@.contains(p)]
                vals@.contains(p) <==> (is_pow2(p as nat) && lo <= p && p < n),
        decreases usize::MAX - n,
    {
        let ghost before = vals@;
        vals.push(n);
        proof {
            assert forall|p: usize| #![auto]
                vals@.contains(p) <==> (is_pow2(p as nat) && lo <= p && p < 2 * n) by {
                if vals@.contains(p) {
                    let k = choose|k: int| 0 <= k < vals@.len() && vals@[k] == p;
                    if k < before.len() {
                        assert(before[k] == p);
                        assert(before.contains(p));
                    }
                }
                if is_pow2(p as nat) && lo <= p && p < 2 * n {
                    if p > n {
                        lemma_pow2_gap(p as nat, n as nat);
                    } else if p < n {
                        assert(before.contains(p));
                        let k = choose|k: int| 0 <= k < before.len() && before[k] == p;
                        assert(vals@[k] == p);
                    } else {
                        assert(vals@[before.len() as int] == p);
                    }
                }
            }
            lemma_pow2_double(n as nat);
            lemma_pow2_unfold(vals@.len());
        }
        let ghost old_n = n;
        n *= 2;
        proof {
            assert(n == 2 * old_n);
            assert forall|p: usize| #![auto]
                vals@.contains(p) <==> (is_pow2(p as nat) && lo <= p && p < n) by {
                assert(vals@.contains(p) <==> (is_pow2(p as nat) && lo <= p && p < 2 * old_n));
            }
        }
    }
    proof {
        assert forall|p: usize| #![auto] vals@.to_set().contains(p) <==> pow2_set(lo, hi).contains(p) by {
            assert(vals@.contains(p) <==> (is_pow2(p as nat) && lo <= p && p < n));
            if vals@.to_set().contains(p) {
                let k = choose|k: int| 0 <= k < vals@.len() && vals@[k] == p;
                assert(vals@[k] <= hi);
            }
        }
        assert(vals@.to_set() =~= pow2_set(lo, hi));
        if vals@.len() > 64 {
            lemma2_to64();
            lemma_pow2_strictly_increases(64, vals@.len());
        }
    }
    vals
}

proof fn lemma_sample_index_bounds(i: int, n: int, limit: int)
    requires
        0 <= i < limit,
        2 <= limit,
        limit < n,
    ensures
        0 <= sample_index(i, n, limit) < n,
        i + 1 < limit ==> sample_index(i, n, limit) <= sample_index(i + 1, n, limit),
{
    let b = limit - 1;
    assert(0 <= 2 * i * (n - 1) + b) by (nonlinear_arith)
        requires
            0 <= i,
            n >= 1,
            b >= 1,
    ;
    assert(2 * i * (n - 1) + b < (2 * b) * n) by (nonlinear_arith)
        requires
            0 <= i <= b,
            n >= 1,
            b >= 1,
    ;
    lemma_multiply_divide_lt(2 * i * (n - 1) + b, 2 * b, n);
    vstd::arithmetic::div_mod::lemma_div_pos_is_pos(2 * i * (n - 1) + b, 2 * b);
    assert(2 * i * (n - 1) + b <= 2 * (i + 1) * (n - 1) + b) by (nonlinear_arith)
        requires
            0 <= i,
            n >= 1,
    ;
    lemma_div_is_ordered(2 * i * (n - 1) + b, 2 * (i + 1) * (n - 1) + b, 2 * b);
}

/// `limit` evenly spread samples of the increasing `values`, in increasing
/// order and each once.
fn sample_evenly(values: &Vec<usize>, limit: usize) -> (out: Vec<usize>)
    requires
        increasing(values@),
        1 <= values@.len() <= 0x10000,
    ensures
        increasing(out@),
        out@.to_set() == sample_set(values@, limit as nat),
{
    let n = values.len();
    if n <= limit {
        let mut out: Vec<usize> = Vec::new();
        let mut k: usize = 0;
        while k < n
            invariant
                n == values.len(),
                k <= n,
                out@ == values@.take(k as int),
            decreases n - k,
        {
            out.push(values[k]);
            proof {
                assert(values@.take(k + 1) =~= values@.take(k as int).push(values@[k as int]));
            }
            k += 1;
        }
        proof {
            assert(values@.take(n as int) =~= values@);
        }
        return out;
    }
    if limit <= 1 {
        let mut out: Vec<usize> = Vec::new();
        out.push(values[0]);
        proof {
            assert(out@.to_set() =~= set![values@[0]]) by {
                assert(out@[0] == values@[0]);
            }
        }
        return out;
    }
    let ghost picks = Seq::new(
        limit as nat,
        |i: int| values@[sample_index(i, n as int, limit as int)],
    );
    let mut out: Vec<usize> = Vec::new();
    let mut i: usize = 0;
    let b: u64 = (limit - 1) as u64;
    while i < limit
        invariant
            n == values.len(),
            2 <= limit < n <= 0x10000,
            b == limit - 1,
            increasing(values@),
            i <= limit,
            picks == Seq::new(
                limit as nat,
                |k: int| values@[sample_index(k, n as int, limit as int)],
            ),
            increasing(out@),
            out@.to_set() == picks.take(i as int).to_set(),
            i > 0 ==> out@.len() > 0 && out@.last() == picks[i - 1],
            i == 0 ==> out@.len() == 0,
        decreases limit - i,
    {
        proof {
            assert((i as int) * ((n - 1) as int) < 0x1_0000_0000) by (nonlinear_arith)
                requires
                    0 <= i < n,
                    n <= 0x10000,
            ;
        }
        let a: u64 = (i as u64) * ((n - 1) as u64);
        let idx_wide: u64 = (2 * a + b) / (2 * b);
        proof {
            lemma_sample_index_bounds(i as int, n as int, limit as int);
            if i > 0 {
                lemma_sample_index_bounds(i - 1, n as int, limit as int);
            }
            assert(2 * (i as int) * ((n - 1) as int) == 2 * ((i as int) * ((n - 1) as int))) by (nonlinear_arith);
            assert(idx_wide == sample_index(i as int, n as int, limit as int));
        }
        let idx = idx_wide as usize;
        let v = values[idx];
        let ghost before = out@;
        proof {
            assert(picks[i as int] == v);
            assert(picks.take(i + 1) =~= picks.take(i as int).push(v));
            if i > 0 {
                let p = sample_index(i - 1, n as int, limit as int);
                assert(picks[i - 1] == values@[p]);
                assert(values@[p] <= v) by {
                    if p < idx {
                        assert(values@[p] < values@[idx as int]);
                    }
                }
            }
        }
        if out.len() == 0 || out[out.len() - 1] < v {
            out.push(v);
            proof {
                assert forall|x: int, y: int| 0 <= x < y < out@.len() implies out@[x] < out@[y] by {
                    if y == out@.len() - 1 && x < y {
                        if x < before.len() - 1 {
                            assert(before[x] < before[before.len() - 1]);
                        }
                    }
                }
                assert(out@ =~= before.push(v));
                lemma_push_to_set(before, v);
                lemma_push_to_set(picks.take(i as int), v);
            }
        } else {
            proof {
                lemma_push_to_set(picks.take(i as int), v);
                assert(before.to_set().contains(v)) by {
                    assert(before[before.len() - 1] == v);
                }
                assert(before.to_set().insert(v) =~= before.to_set());
            }
        }
        i += 1;
    }
    proof {
        assert(picks.take(limit as int) =~= picks);
    }
    out
}

/// The increasing vector holding the elements of `v` together with `x`.
fn with_point(v: Vec<usize>, x: usize) -> (out: Vec<usize>)
    requires
        increasing(v@),
    ensures
        increasing(out@),
        out@.to_set() == v@.to_set().insert(x),
        out@.len() <= v@.len() + 1,
{
    let mut out = v;
    sorted_insert(&mut out, x);
    out
}

/// Points spread over `lo..=hi`: the ends, plus at most `max_points`
/// evenly spread samples of the ends and the powers of two between them,
/// in increasing order.
pub fn nice_points(lo: usize, hi: usize, max_points: usize) -> (out: Vec<usize>)
    requires
        lo != hi ==> doubling_fits(lo, hi),
    ensures
        out@ == sorted_listing(nice_set(lo, hi, max_points)),
        increasing(out@),
        out@.to_set() == nice_set(lo, hi, max_points),
        out@.contains(lo),
        out@.contains(hi),
{
    if lo == hi {
        let mut out: Vec<usize> = Vec::new();
        out.push(lo);
        proof {
            assert(out@.to_set() =~= set![lo]) by {
                assert(out@[0] == lo);
            }
            lemma_listing_of(out@);
            lemma_holds_the_ends(out@, lo, hi, max_points);
        }
        return out;
    }
    let pows = powers_of_two_between(lo, hi);
    let cands = with_point(with_point(pows, lo), hi);
    proof {
        assert(cands@.to_set() =~= candidate_set(lo, hi));
        lemma_listing_of(cands@);
        assert(cands@.len() <= 66);
        assert(cands@.to_set().contains(lo));
    }
    let sampled = sample_evenly(&cands, max_points);
    let out = with_point(with_point(sampled, lo), hi);
    proof {
        lemma_listing_of(out@);
        lemma_holds_the_ends(out@, lo, hi, max_points);
    }
    out
}


/// The server slot counts `parallel_points` picks in `lo..=hi`: 1 and 2
/// when in range, every multiple of 4 from `max(lo, 4)` to `hi`, and the ends.
pub open spec fn parallel_set(lo: usize, hi: usize) -> Set<usize> {
    Set::new(
        |n: usize|
            (n == 1 && lo <= 1 && 1 <= hi) || (n == 2 && lo <= 2 && 2 <= hi) || (n >= lo && n >= 4
                && n <= hi && n % 4 == 0) || n == lo || n == hi,
    )
}

/// The multiples of 4 in `start..=hi`, in increasing order.
fn multiples_of_four(start: usize, hi: usize) -> (out: Vec<usize>)
    ensures
        increasing(out@),
        forall|n: usize| #![auto] out@.contains(n) <==> (start <= n && n <= hi && n % 4 == 0),
{
    let mut out: Vec<usize> = Vec::new();
    if start > hi {
        return out;
    }
    let r = start % 4;
    let mut m: usize = start;
    if r != 0 {
        if 4 - r > hi - start {
            return out;
        }
        m = start + (4 - r);
    }
    loop
        invariant
            start <= m <= hi,
            m % 4 == 0,
            increasing(out@),
            forall|k: int| 0 <= k < out@.len() ==> out@[k] < m,
            forall|n: usize| #![auto] out@.contains(n) <==> (start <= n && n < m && n % 4 == 0),
        decreases hi - m,
    {
        let ghost before = out@;
        out.push(m);
        proof {
            assert forall|n: usize| #![auto]
                out@.contains(n) <==> (start <= n && n < m + 4 && n % 4 == 0) by {
                assert(before.contains(n) <==> (start <= n && n < m && n % 4 == 0));
                if out@.contains(n) {
                    let k = choose|k: int| 0 <= k < out@.len() && out@[k] == n;
                    if k < before.len() {
                        assert(before[k] == n);
                    }
                }
                if start <= n && n < m + 4 && n % 4 == 0 {
                    if n < m {
                        let k = choose|k: int| 0 <= k < before.len() && before[k] == n;
                        assert(out@[k] == n);
                    } else {
                        assert(out@[before.len() as int] == n);
                    }
                }
            }
        }
        if hi - m < 4 {
            return out;
        }
        m += 4;
    }
}

/// The server slot counts to test in `lo..=hi`: 1 and 2 when in range,
/// every multiple of 4 from `max(lo, 4)` up to `hi`, and both ends, in
/// increasing order.
pub fn parallel_points(lo: usize, hi: usize) -> (out: Vec<usize>)
    ensures
        out@ == sorted_listing(parallel_set(lo, hi)),
        increasing(out@),
        out@.to_set() == parallel_set(lo, hi),
        out@.contains(lo),
        out@.contains(hi),
{
    let start = if lo > 4 { lo } else { 4 };
    let mut v = multiples_of_four(start, hi);
    if lo <= 1 && 1 <= hi {
        sorted_insert(&mut v, 1);
    }
    if lo <= 2 && 2 <= hi {
        sorted_insert(&mut v, 2);
    }
    sorted_insert(&mut v, lo);
    sorted_insert(&mut v, hi);
    proof {
        assert forall|n: usize| #![auto] v@.to_set().contains(n) <==> parallel_set(lo, hi).contains(n) by {
            assert(v@.to_set().contains(n) == v@.contains(n));
        }
        assert(v@.to_set() =~= parallel_set(lo, hi));
        lemma_listing_of(v@);
        assert(v@.to_set().contains(lo));
        assert(v@.to_set().contains(hi));
    }
    v
}

/// The request concurrency levels `prompt_points` picks in `lo..=hi`: those
/// of `nice_points`, and 1 when in range.
pub open spec fn prompt_set(lo: usize, hi: usize, max_points: usize) -> Set<usize> {
    if lo <= 1 && 1 <= hi {
        nice_set(lo, hi, max_points).insert(1)
    } else {
        nice_set(lo, hi, max_points)
    }
}

/// The request concurrency levels to test in `lo..=hi`: the points of
/// `nice_points`, with 1 added when it is in range, in increasing order.
pub fn prompt_points(lo: usize, hi: usize, max_points: usize) -> (out: Vec<usize>)
    requires
        lo != hi ==> doubling_fits(lo, hi),
    ensures
        out@ == sorted_listing(prompt_set(lo, hi, max_points)),
        increasing(out@),
        out@.to_set() == prompt_set(lo, hi, max_points),
        out@.contains(lo),
        out@.contains(hi),
        lo <= 1 <= hi ==> out@.contains(1),
{
    let mut points = nice_points(lo, hi, max_points);
    if lo <= 1 && 1 <= hi {
        sorted_insert(&mut points, 1);
    }
    proof {
        assert(points@.to_set() =~= prompt_set(lo, hi, max_points));
        lemma_listing_of(points@);
        law_sampled_points_hold_the_ends(lo, hi, max_points);
        assert(points@.to_set().contains(lo));
        assert(points@.to_set().contains(hi));
        if lo <= 1 && 1 <= hi {
            assert(points@.to_set().contains(1));
        }
    }
    points
}

/// The label of a value among the points of its axis: `short` for the
/// smallest, `long` for the largest, `mid` otherwise.
pub open spec fn bucket_label(value: usize, points: Seq<usize>) -> Seq<char> {
    if points.len() == 0 || value == seq_min(points) {
        "short"@
    } else if value == seq_max(points) {
        "long"@
    } else {
        "mid"@
    }
}

/// The smallest element of a non-empty sequence.
pub open spec fn seq_min(s: Seq<usize>) -> usize
    decreases s.len(),
{
    if s.len() <= 1 {
        s[0]
    } else if s.last() < seq_min(s.drop_last()) {
        s.last()
    } else {
        seq_min(s.drop_last())
    }
}

/// The largest element of a non-empty sequence.
pub open spec fn seq_max(s: Seq<usize>) -> usize
    decreases s.len(),
{
    if s.len() <= 1 {
        s[0]
    } else if s.last() > seq_max(s.drop_last()) {
        s.last()
    } else {
        seq_max(s.drop_last())
    }
}

/// The smallest and the largest element of a non-empty slice.
fn min_max(points: &[usize]) -> (r: (usize, usize))
    requires
        points@.len() > 0,
    ensures
        r == (seq_min(points@), seq_max(points@)),
{
    let mut lo = points[0];
    let mut hi = points[0];
    let mut i: usize = 1;
    proof {
        assert(points@.take(1).len() == 1);
    }
    while i < points.len()
        invariant
            1 <= i <= points@.len(),
            lo == seq_min(points@.take(i as int)),
            hi == seq_max(points@.take(i as int)),
        decreases points.len() - i,
    {
        proof {
            assert(points@.take(i + 1).drop_last() =~= points@.take(i as int));
        }
        if points[i] < lo {
            lo = points[i];
        }
        if points[i] > hi {
            hi = points[i];
        }
        i += 1;
    }
    proof {
        assert(points@.take(points.len() as int) =~= points@);
    }
    (lo, hi)
}

/// The label of `value` among `points`: `short` for the smallest, `long`
/// for the largest, `mid` otherwise.
pub fn bucket(value: usize, points: &[usize]) -> (label: String)
    ensures
        label@ == bucket_label(value, points@),
{
    if points.len() == 0 {
        return "short".to_owned();
    }
    let (lo, hi) = min_max(points);
    if value == lo {
        "short".to_owned()
    } else if value == hi {
        "long".to_owned()
    } else {
        "mid".to_owned()
    }
}

/// The server batch size for the longest input: 512 up to 512 tokens,
/// 1024 up to 1024, else `max_batch_size`; never above `max_batch_size`.
pub fn auto_batch_size(max_input_len: usize, max_batch_size: usize) -> (n: usize)
    ensures
        n == if max_input_len <= 512 {
            if max_batch_size < 512 { max_batch_size } else { 512 }
        } else if max_input_len <= 1024 {
            if max_batch_size < 1024 { max_batch_size } else { 1024 }
        } else {
            max_batch_size
        },
{
    if max_input_len <= 512 {
        return if max_batch_size < 512 { max_batch_size } else { 512 };
    }
    if max_input_len <= 1024 {
        return if max_batch_size < 1024 { max_batch_size } else { 1024 };
    }
    max_batch_size
}

// ---------------------------------------------------------------------
// Grouping and planning of cases
// ---------------------------------------------------------------------

/// Every case's slot context fits in `usize`.
pub open spec fn contexts_fit(cases: Seq<Case>) -> bool {
    forall|k: int| 0 <= k < cases.len() ==> #[trigger] cases[k].context_needed() <= usize::MAX
}

/// The slot contexts the cases need.
pub open spec fn context_set(cases: Seq<Case>) -> Set<usize> {
    Set::new(
        |x: usize| exists|k: int| 0 <= k < cases.len() && #[trigger] cases[k].context_needed() == x,
    )
}

/// The cases that need slot context `ctx`, in their order.
pub open spec fn with_context(cases: Seq<Case>, ctx: usize) -> Seq<Case>
    decreases cases.len(),
{
    if cases.len() == 0 {
        Seq::empty()
    } else if cases.last().context_needed() == ctx {
        with_context(cases.drop_last(), ctx).push(cases.last())
    } else {
        with_context(cases.drop_last(), ctx)
    }
}

/// The groups of cases by slot context: each context the cases need, in
/// increasing order, with the cases that need it, in their order.
pub open spec fn grouping(cases: Seq<Case>) -> Seq<(usize, Seq<Case>)> {
    sorted_listing(context_set(cases)).map_values(|c: usize| (c, with_context(cases, c)))
}

/// The groups held by a vector of (context, cases) pairs.
pub open spec fn group_views(g: Seq<(usize, Vec<Case>)>) -> Seq<(usize, Seq<Case>)> {
    g.map_values(|p: (usize, Vec<Case>)| (p.0, p.1@))
}

/// The cases of `cases` that need slot context `ctx`, in order.
fn cases_with_context(cases: &[Case], ctx: usize) -> (out: Vec<Case>)
    requires
        contexts_fit(cases@),
    ensures
        out@ == with_context(cases@, ctx),
{
    let mut out: Vec<Case> = Vec::new();
    let mut j: usize = 0;
    proof {
        assert(cases@.take(0) =~= Seq::<Case>::empty());
    }
    while j < cases.len()
        invariant
            j <= cases@.len(),
            contexts_fit(cases@),
            out@ == with_context(cases@.take(j as int), ctx),
        decreases cases.len() - j,
    {
        proof {
            assert(cases@.take(j + 1).drop_last() =~= cases@.take(j as int));
            assert(cases@.take(j + 1).last() == cases@[j as int]);
            assert(cases@[j as int].context_needed() <= usize::MAX);
        }
        if cases[j].required_context_per_slot() == ctx {
            out.push(cases[j].duplicate());
        }
        j += 1;
    }
    proof {
        assert(cases@.take(cases.len() as int) =~= cases@);
    }
    out
}

/// The cases grouped by the context per slot they need: the groups in
/// increasing order of context, the cases of each group in their order.
pub fn grouped_by_required_context(cases: &[Case]) -> (out: Vec<(usize, Vec<Case>)>)
    requires
        contexts_fit(cases@),
    ensures
        group_views(out@) == grouping(cases@),
        forall|i: int, j: int| 0 <= i < j < out@.len() ==> out@[i].0 < out@[j].0,
{
    let mut ctxs: Vec<usize> = Vec::new();
    let mut i: usize = 0;
    proof {
        assert(ctxs@.to_set() =~= context_set(cases@.take(0)));
    }
    while i < cases.len()
        invariant
            i <= cases@.len(),
            contexts_fit(cases@),
            increasing(ctxs@),
            ctxs@.to_set() == context_set(cases@.take(i as int)),
        decreases cases.len() - i,
    {
        proof {
            assert(cases@[i as int].context_needed() <= usize::MAX);
        }
        let c = cases[i].required_context_per_slot();
        sorted_insert(&mut ctxs, c);
        proof {
            assert forall|x: usize| #![auto]
                context_set(cases@.take(i + 1)).contains(x) <==> context_set(cases@.take(i as int)).insert(c).contains(x) by {
                if context_set(cases@.take(i + 1)).contains(x) {
                    let k = choose|k: int| 0 <= k < i + 1 && #[trigger] cases@.take(i + 1)[k].context_needed() == x;
                    if k < i {
                        assert(cases@.take(i as int)[k] == cases@[k]);
                    }
                }
                if context_set(cases@.take(i as int)).contains(x) {
                    let k = choose|k: int| 0 <= k < i && #[trigger] cases@.take(i as int)[k].context_needed() == x;
                    assert(cases@.take(i + 1)[k] == cases@[k]);
                }
                if x == c {
                    assert(cases@.take(i + 1)[i as int] == cases@[i as int]);
                }
            }
            assert(context_set(cases@.take(i + 1)) =~= context_set(cases@.take(i as int)).insert(c));
        }
        i += 1;
    }
    proof {
        assert(cases@.take(cases.len() as int) =~= cases@);
        lemma_listing_of(ctxs@);
    }
    let ghost listing = sorted_listing(context_set(cases@));
    let mut out: Vec<(usize, Vec<Case>)> = Vec::new();
    let mut g: usize = 0;
    while g < ctxs.len()
        invariant
            g <= ctxs@.len(),
            contexts_fit(cases@),
            ctxs@ == listing,
            listing == sorted_listing(context_set(cases@)),
            group_views(out@) =~= grouping(cases@).take(g as int),
        decreases ctxs.len() - g,
    {
        let ctx = ctxs[g];
        let group = cases_with_context(cases, ctx);
        let ghost before = group_views(out@);
        out.push((ctx, group));
        proof {
            assert(group_views(out@) =~= before.push((ctx, with_context(cases@, ctx))));
            assert(grouping(cases@).take(g + 1) =~= grouping(cases@).take(g as int).push(
                (ctx, with_context(cases@, ctx)),
            ));
        }
        g += 1;
    }
    proof {
        assert(grouping(cases@).take(ctxs.len() as int) =~= grouping(cases@));
        assert forall|i: int, j: int| 0 <= i < j < out@.len() implies out@[i].0 < out@[j].0 by {
            assert(group_views(out@)[i].0 == out@[i].0);
            assert(group_views(out@)[j].0 == out@[j].0);
            assert(grouping(cases@)[i].0 == listing[i]);
            assert(grouping(cases@)[j].0 == listing[j]);
        }
    }
    out
}

/// Why a matrix plan cannot be made.
#[derive(Clone, Copy, Debug, PartialEq, Eq, Structural)]
pub enum PlanError {
    /// Slot counts and prompt counts are to be paired but differ in number.
    UnpairedSlotsAndPrompts,
    /// Input and output lengths are to be paired but differ in number.
    UnpairedInputsAndOutputs,
}

/// The pairs of `a` and `b`: by position when `zip`, else every element of
/// `a` with every element of `b`, `a` outermost.
pub open spec fn pairs_of(a: Seq<usize>, b: Seq<usize>, zip: bool) -> Seq<(usize, usize)> {
    if zip {
        Seq::new(a.len(), |k: int| (a[k], b[k]))
    } else {
        cross(a, b)
    }
}

/// Every element of `a` with every element of `b`, `a` outermost.
pub open spec fn cross(a: Seq<usize>, b: Seq<usize>) -> Seq<(usize, usize)>
    decreases a.len(),
{
    if a.len() == 0 {
        Seq::empty()
    } else {
        cross(a.drop_last(), b) + b.map_values(|y: usize| (a.last(), y))
    }
}

/// Every element of `a` with every element of `b`, `a` outermost.
pub open spec fn cross_pairs(
    a: Seq<(usize, usize)>,
    b: Seq<(usize, usize)>,
) -> Seq<((usize, usize), (usize, usize))>
    decreases a.len(),
{
    if a.len() == 0 {
        Seq::empty()
    } else {
        cross_pairs(a.drop_last(), b) + b.map_values(|y: (usize, usize)| (a.last(), y))
    }
}

/// `c` is the case for slot count and prompt count `sp` and input and
/// output length `io`, labelled against the input and output axes.
pub open spec fn case_for(
    c: Case,
    sp: (usize, usize),
    io: (usize, usize),
    input_lens: Seq<usize>,
    output_lens: Seq<usize>,
) -> bool {
    &&& c.parallel_size == sp.0
    &&& c.num_prompts == sp.1
    &&& c.input_len == io.0
    &&& c.output_len == io.1
    &&& c.input_bucket@ == bucket_label(io.0, input_lens)
    &&& c.output_bucket@ == bucket_label(io.1, output_lens)
    &&& c.concurrency_bucket@ == if sp.1 == 1 {
        "single"@
    } else {
        "multi"@
    }
}

/// The pairs of `a` and `b` (see `pairs_of`).
fn make_pairs(a: &Vec<usize>, b: &Vec<usize>, zip: bool) -> (out: Vec<(usize, usize)>)
    requires
        zip ==> a@.len() == b@.len(),
    ensures
        out@ == pairs_of(a@, b@, zip),
{
    let mut out: Vec<(usize, usize)> = Vec::new();
    if zip {
        let mut k: usize = 0;
        while k < a.len()
            invariant
                a@.len() == b@.len(),
                k <= a@.len(),
                out@ =~= pairs_of(a@, b@, true).take(k as int),
            decreases a.len() - k,
        {
            out.push((a[k], b[k]));
            k += 1;
        }
        proof {
            assert(pairs_of(a@, b@, true).take(a.len() as int) =~= pairs_of(a@, b@, true));
        }
    } else {
        let mut i: usize = 0;
        proof {
            assert(a@.take(0) =~= Seq::<usize>::empty());
        }
        while i < a.len()
            invariant
                i <= a@.len(),
                out@ =~= cross(a@.take(i as int), b@),
            decreases a.len() - i,
        {
            let ghost before = out@;
            let mut j: usize = 0;
            while j < b.len()
                invariant
                    i < a@.len(),
                    j <= b@.len(),
                    out@ =~= before + b@.take(j as int).map_values(|y: usize| (a@[i as int], y)),
                decreases b.len() - j,
            {
                out.push((a[i], b[j]));
                proof {
                    assert(b@.take(j + 1).map_values(|y: usize| (a@[i as int], y)) =~= b@.take(
                        j as int,
                    ).map_values(|y: usize| (a@[i as int], y)).push((a@[i as int], b@[j as int])));
                }
                j += 1;
            }
            proof {
                assert(b@.take(b.len() as int) =~= b@);
                assert(a@.take(i + 1).drop_last() =~= a@.take(i as int));
                assert(a@.take(i + 1).last() == a@[i as int]);
            }
            i += 1;
        }
        proof {
            assert(a@.take(a.len() as int) =~= a@);
        }
    }
    out
}

/// The cases of the benchmark matrix: every (slots, prompts) pair with
/// every (input, output) pair, slots and prompts outermost. The pairs are
/// made by position where asked, else as all combinations.
pub fn plan_cases(
    parallels: &Vec<usize>,
    prompts: &Vec<usize>,
    input_lens: &Vec<usize>,
    output_lens: &Vec<usize>,
    pair_parallel_with_num_prompts: bool,
    pair_input_output_lens: bool,
) -> (r: Result<Vec<Case>, PlanError>)
    ensures
        pair_parallel_with_num_prompts && parallels@.len() != prompts@.len() ==> r == Err::<
            Vec<Case>,
            PlanError,
        >(PlanError::UnpairedSlotsAndPrompts),
        !(pair_parallel_with_num_prompts && parallels@.len() != prompts@.len())
            && pair_input_output_lens && input_lens@.len() != output_lens@.len() ==> r == Err::<
            Vec<Case>,
            PlanError,
        >(PlanError::UnpairedInputsAndOutputs),
        r is Ok <==> !(pair_parallel_with_num_prompts && parallels@.len() != prompts@.len())
            && !(pair_input_output_lens && input_lens@.len() != output_lens@.len()),
        r matches Ok(cases) ==> {
            let plan = cross_pairs(
                pairs_of(parallels@, prompts@, pair_parallel_with_num_prompts),
                pairs_of(input_lens@, output_lens@, pair_input_output_lens),
            );
            &&& cases@.len() == plan.len()
            &&& forall|k: int|
                0 <= k < plan.len() ==> case_for(
                    #[trigger] cases@[k],
                    plan[k].0,
                    plan[k].1,
                    input_lens@,
                    output_lens@,
                )
        },
{
    if pair_parallel_with_num_prompts && parallels.len() != prompts.len() {
        return Err(PlanError::UnpairedSlotsAndPrompts);
    }
    if pair_input_output_lens && input_lens.len() != output_lens.len() {
        return Err(PlanError::UnpairedInputsAndOutputs);
    }
    let sp = make_pairs(parallels, prompts, pair_parallel_with_num_prompts);
    let io = make_pairs(input_lens, output_lens, pair_input_output_lens);
    let ghost plan = cross_pairs(sp@, io@);
    let mut cases: Vec<Case> = Vec::new();
    let mut i: usize = 0;
    proof {
        assert(sp@.take(0) =~= Seq::<(usize, usize)>::empty());
    }
    while i < sp.len()
        invariant
            i <= sp@.len(),
            cases@.len() == cross_pairs(sp@.take(i as int), io@).len(),
            forall|k: int|
                0 <= k < cases@.len() ==> case_for(
                    #[trigger] cases@[k],
                    cross_pairs(sp@.take(i as int), io@)[k].0,
                    cross_pairs(sp@.take(i as int), io@)[k].1,
                    input_lens@,
                    output_lens@,
                ),
        decreases sp.len() - i,
    {
        let ghost before = cases@;
        let ghost done = cross_pairs(sp@.take(i as int), io@);
        let (p, n) = sp[i];
        let mut j: usize = 0;
        while j < io.len()
            invariant
                i < sp@.len(),
                sp@[i as int] == (p, n),
                j <= io@.len(),
                cases@.len() == before.len() + j,
                before.len() == done.len(),
                forall|k: int| 0 <= k < before.len() ==> cases@[k] == before[k],
                forall|k: int|
                    0 <= k < before.len() ==> case_for(
                        #[trigger] before[k],
                        done[k].0,
                        done[k].1,
                        input_lens@,
                        output_lens@,
                    ),
                forall|k: int|
                    0 <= k < j ==> case_for(
                        #[trigger] cases@[before.len() + k],
                        (p, n),
                        io@[k],
                        input_lens@,
                        output_lens@,
                    ),
            decreases io.len() - j,
        {
            let (il, ol) = io[j];
            let concurrency = if n == 1 { "single".to_owned() } else { "multi".to_owned() };
            let c = Case {
                parallel_size: p,
                num_prompts: n,
                input_len: il,
                output_len: ol,
                input_bucket: bucket(il, input_lens.as_slice()),
                output_bucket: bucket(ol, output_lens.as_slice()),
                concurrency_bucket: concurrency,
            };
            cases.push(c);
            proof {
                assert(cases@[before.len() + j] == c);
            }
            j += 1;
        }
        proof {
            let row = io@.map_values(|y: (usize, usize)| (sp@[i as int], y));
            assert(sp@.take(i + 1).drop_last() =~= sp@.take(i as int));
            assert(sp@.take(i + 1).last() == sp@[i as int]);
            assert(cross_pairs(sp@.take(i + 1), io@) == done + row);
            assert forall|k: int| 0 <= k < cases@.len() implies case_for(
                #[trigger] cases@[k],
                (done + row)[k].0,
                (done + row)[k].1,
                input_lens@,
                output_lens@,
            ) by {
                if k < before.len() {
                    assert(cases@[k] == before[k]);
                } else {
                    let m = k - before.len();
                    assert(cases@[before.len() + m] == cases@[k]);
                }
            }
        }
        i += 1;
    }
    proof {
        assert(sp@.take(sp.len() as int) =~= sp@);
    }
    Ok(cases)
}

/// The context for the first try of the max-first strategy: the longest
/// input plus the longest output (64 for an empty axis) plus the margin,
/// for every slot.
pub open spec fn max_first_context(input_lens: Seq<usize>, output_lens: Seq<usize>, parallel_size: usize) -> int {
    let i = if input_lens.len() == 0 { 64 } else { seq_max(input_lens) as int };
    let o = if output_lens.len() == 0 { 64 } else { seq_max(output_lens) as int };
    (i + o + CTX_MARGIN) * parallel_size
}

/// The context size for the first server start of the max-first strategy.
pub fn max_first_ctx_size(input_lens: &Vec<usize>, output_lens: &Vec<usize>, parallel_size: usize) -> (n: usize)
    requires
        max_first_context(input_lens@, output_lens@, parallel_size) <= usize::MAX,
    ensures
        n == max_first_context(input_lens@, output_lens@, parallel_size),
{
    let i = if input_lens.len() == 0 { 64 } else { min_max(input_lens.as_slice()).1 };
    let o = if output_lens.len() == 0 { 64 } else { min_max(output_lens.as_slice()).1 };
    proof {
        let m = i + o + CTX_MARGIN;
        assert(m * parallel_size <= usize::MAX);
        if parallel_size > 0 {
            assert(m <= m * parallel_size) by (nonlinear_arith)
                requires
                    parallel_size >= 1,
                    m >= 0,
            ;
        }
    }
    if parallel_size == 0 {
        return 0;
    }
    (i + o + CTX_MARGIN) * parallel_size
}

proof fn lemma_cross_len(a: Seq<usize>, b: Seq<usize>)
    ensures
        cross(a, b).len() == a.len() * b.len(),
    decreases a.len(),
{
    if a.len() > 0 {
        lemma_cross_len(a.drop_last(), b);
        assert((a.len() - 1) * b.len() + b.len() == a.len() * b.len()) by (nonlinear_arith);
    }
}

proof fn lemma_cross_pairs_len(a: Seq<(usize, usize)>, b: Seq<(usize, usize)>)
    ensures
        cross_pairs(a, b).len() == a.len() * b.len(),
    decreases a.len(),
{
    if a.len() > 0 {
        lemma_cross_pairs_len(a.drop_last(), b);
        assert((a.len() - 1) * b.len() + b.len() == a.len() * b.len()) by (nonlinear_arith);
    }
}

/// Without pairing, the matrix is the Cartesian product of its four axes:
/// it has one case per slot count, prompt count, input length and output
/// length.
pub proof fn law_matrix_is_the_cartesian_product(
    parallels: Seq<usize>,
    prompts: Seq<usize>,
    input_lens: Seq<usize>,
    output_lens: Seq<usize>,
)
    ensures
        cross_pairs(pairs_of(parallels, prompts, false), pairs_of(input_lens, output_lens, false)).len()
            == parallels.len() * prompts.len() * input_lens.len() * output_lens.len(),
{
    lemma_cross_len(parallels, prompts);
    lemma_cross_len(input_lens, output_lens);
    lemma_cross_pairs_len(pairs_of(parallels, prompts, false), pairs_of(input_lens, output_lens, false));
    let p = parallels.len();
    let n = prompts.len();
    let i = input_lens.len();
    let o = output_lens.len();
    assert((p * n) * (i * o) == p * n * i * o) by (nonlinear_arith);
}

/// With both pairings, the matrix has one case per (slot count, prompt
/// count) pair and (input, output) pair: the product of the two list
/// lengths.
pub proof fn law_paired_matrix_size(
    parallels: Seq<usize>,
    prompts: Seq<usize>,
    input_lens: Seq<usize>,
    output_lens: Seq<usize>,
)
    requires
        parallels.len() == prompts.len(),
        input_lens.len() == output_lens.len(),
    ensures
        cross_pairs(pairs_of(parallels, prompts, true), pairs_of(input_lens, output_lens, true)).len()
            == parallels.len() * input_lens.len(),
{
    lemma_cross_pairs_len(pairs_of(parallels, prompts, true), pairs_of(input_lens, output_lens, true));
}

proof fn lemma_list_items_distinct_positive(parts: Seq<Seq<char>>)
    ensures
        list_items(parts) matches Ok(v) ==> v.no_duplicates() && forall|i: int| 0 <= i < v.len() ==> v[i] > 0,
    decreases parts.len(),
{
    if parts.len() > 0 {
        lemma_list_items_distinct_positive(parts.drop_last());
        match list_items(parts.drop_last()) {
            Ok(acc) => match parse_usize(parts.last()) {
                Ok(x) => if x != 0 && !acc.contains(x) {
                    let w = acc.push(x);
                    assert forall|i: int, j: int| 0 <= i < w.len() && 0 <= j < w.len() && i != j implies w[i] != w[j] by {
                        if i == w.len() - 1 {
                            assert(acc.contains(w[j]) ==> w[j] != x);
                            assert(w[j] == acc[j]);
                        } else if j == w.len() - 1 {
                            assert(w[i] == acc[i]);
                        }
                    }
                },
                Err(_) => {},
            },
            Err(_) => {},
        }
    }
}

/// A parsed list holds each value once, and only positive values.
pub proof fn law_listed_values_are_distinct_and_positive(value: Seq<char>)
    ensures
        list_of(value) matches Ok(v) ==> v.no_duplicates() && forall|i: int| 0 <= i < v.len() ==> v[i] > 0,
{
    lemma_list_items_distinct_positive(split_on(list_text(value), ','));
}

/// How the points of an axis given as a range are picked: evenly spread
/// samples (`nice_points`), those with 1 added (`prompt_points`), or the
/// server slot counts (`parallel_points`).
#[derive(Clone, Copy, Debug, PartialEq, Eq, Structural)]
pub enum AxisSampling {
    Nice(usize),
    Prompts(usize),
    Slots,
}

/// The range text an axis is read from: the one given, else the default.
pub open spec fn axis_range_text(range: Option<String>, default_range: Seq<char>) -> Seq<char> {
    match range {
        Some(r) => r@,
        None => default_range,
    }
}

/// The points a sampling picks in `lo..=hi`.
pub open spec fn sampled_set(lo: usize, hi: usize, sampling: AxisSampling) -> Set<usize> {
    match sampling {
        AxisSampling::Nice(m) => nice_set(lo, hi, m),
        AxisSampling::Prompts(m) => prompt_set(lo, hi, m),
        AxisSampling::Slots => parallel_set(lo, hi),
    }
}

/// The values of an axis: the list when one is given, else the points the
/// sampling picks in the given range (or the default range), in increasing
/// order.
pub open spec fn axis_of(
    list: Option<String>,
    range: Option<String>,
    default_range: Seq<char>,
    sampling: AxisSampling,
) -> Result<Seq<usize>, MatrixErrorKind> {
    match list {
        Some(l) => list_of(l@),
        None => match range_of(axis_range_text(range, default_range)) {
            Err(e) => Err(e),
            Ok((lo, hi)) => Ok(sorted_listing(sampled_set(lo, hi, sampling))),
        },
    }
}

/// Sampling the axis stays within `usize`: a range sampled by doubling,
/// unless it is a single point, ends below half of `usize::MAX`.
pub open spec fn axis_fits(
    list: Option<String>,
    range: Option<String>,
    default_range: Seq<char>,
    sampling: AxisSampling,
) -> bool {
    list is Some || match range_of(axis_range_text(range, default_range)) {
        Ok((lo, hi)) => sampling is Slots || lo == hi || doubling_fits(lo, hi),
        Err(_) => true,
    }
}

/// Whether sampling the axis stays within `usize` (see `axis_fits`).
pub fn axis_fits_check(
    list: &Option<String>,
    range: &Option<String>,
    default_range: &str,
    sampling: AxisSampling,
) -> (r: bool)
    ensures
        r == axis_fits(*list, *range, default_range@, sampling),
{
    if list.is_some() {
        return true;
    }
    let text: &str = match range {
        Some(r) => r.as_str(),
        None => default_range,
    };
    match parse_range(text, "") {
        Err(_) => true,
        Ok((lo, hi)) => match sampling {
            AxisSampling::Slots => true,
            _ => lo == hi || (lo <= usize::MAX / 2 + 1 && hi <= usize::MAX / 2),
        },
    }
}

/// The values of an axis (see `axis_of`); an error names the axis and the
/// list or range text it came from.
pub fn axis_values(
    list: &Option<String>,
    range: &Option<String>,
    default_range: &str,
    name: &str,
    sampling: AxisSampling,
) -> (r: Result<Vec<usize>, MatrixError>)
    requires
        axis_fits(*list, *range, default_range@, sampling),
    ensures
        match r {
            Ok(v) => axis_of(*list, *range, default_range@, sampling) == Ok::<Seq<usize>, MatrixErrorKind>(v@),
            Err(e) => axis_of(*list, *range, default_range@, sampling) == Err::<Seq<usize>, MatrixErrorKind>(e.kind)
                && e.name@ == name@ && e.value@ == match *list {
                Some(l) => l@,
                None => axis_range_text(*range, default_range@),
            },
        },
{
    if let Some(l) = list {
        return parse_int_list(l.as_str(), name);
    }
    let text: &str = match range {
        Some(r) => r.as_str(),
        None => default_range,
    };
    let (lo, hi) = match parse_range(text, name) {
        Ok(b) => b,
        Err(e) => {
            return Err(e);
        },
    };
    match sampling {
        AxisSampling::Nice(m) => Ok(nice_points(lo, hi, m)),
        AxisSampling::Prompts(m) => Ok(prompt_points(lo, hi, m)),
        AxisSampling::Slots => Ok(parallel_points(lo, hi)),
    }
}

/// The server slot counts of a range hold both ends, and, for a range
/// whose ends are in order, only counts between them: 1 and 2 when in
/// range, and every multiple of 4 from 4 up that lies in the range.
pub proof fn law_slot_counts_span_the_range(lo: usize, hi: usize)
    ensures
        parallel_set(lo, hi).contains(lo),
        parallel_set(lo, hi).contains(hi),
        lo <= hi ==> forall|n: usize| #[trigger] parallel_set(lo, hi).contains(n) ==> lo <= n <= hi,
        forall|n: usize| lo <= n <= hi && n >= 4 && n % 4 == 0 ==> #[trigger] parallel_set(lo, hi).contains(n),
        lo <= 1 <= hi ==> parallel_set(lo, hi).contains(1),
        lo <= 2 <= hi ==> parallel_set(lo, hi).contains(2),
        forall|n: usize| #[trigger] parallel_set(lo, hi).contains(n) ==> n == lo || n == hi || n == 1 || n == 2 || n % 4 == 0,
{
}

proof fn lemma_holds_the_ends(out: Seq<usize>, lo: usize, hi: usize, max_points: usize)
    requires
        out.to_set() == nice_set(lo, hi, max_points),
    ensures
        out.contains(lo),
        out.contains(hi),
{
    law_sampled_points_hold_the_ends(lo, hi, max_points);
    assert(out.to_set().contains(lo));
    assert(out.to_set().contains(hi));
}

/// The sampled points of a range, and the request concurrency levels,
/// always hold both ends of the range; the concurrency levels hold 1 when
/// it is in range.
pub proof fn law_sampled_points_hold_the_ends(lo: usize, hi: usize, max_points: usize)
    ensures
        nice_set(lo, hi, max_points).contains(lo),
        nice_set(lo, hi, max_points).contains(hi),
        prompt_set(lo, hi, max_points).contains(lo),
        prompt_set(lo, hi, max_points).contains(hi),
        lo <= 1 <= hi ==> prompt_set(lo, hi, max_points).contains(1),
{
}

} // verus!
