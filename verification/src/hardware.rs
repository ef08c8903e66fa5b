//! The hardware specification items of a run, read from the output of the
//! commands that describe the machine.
use vstd::prelude::*;
use crate::gpu::{contains_text, first_occurrences};
use crate::text::{
    chars_of, dec, extend_chars, extend_str, join, join_chars, lines, lines_of,
    push_decimal, split_chars, split_on, split_once, split_once_chars, starts_with,
    starts_with_chars, string_of, trim, trim_chars, views, without_ansi, words, words_of,
    strip_ansi_escape_sequences,
};

verus! {

/// One item of the hardware specification and its value.
#[derive(Clone, Debug)]
pub struct HardwareSpec {
    pub item: String,
    pub value: String,
}

/// The items and values of a list of specification items.
pub open spec fn spec_pairs(v: Seq<HardwareSpec>) -> Seq<(Seq<char>, Seq<char>)> {
    Seq::new(v.len(), |i: int| (v[i].item@, v[i].value@))
}

/// Appends an item to a list of specification items.
fn push_spec(v: &mut Vec<HardwareSpec>, item: Vec<char>, value: Vec<char>)
    ensures
        spec_pairs(final(v)@) == spec_pairs(old(v)@).push((item@, value@)),
{
    let ghost before = spec_pairs(v@);
    v.push(HardwareSpec { item: string_of(&item), value: string_of(&value) });
    proof {
        assert(spec_pairs(v@) =~= before.push((item@, value@)));
    }
}

// ---------------------------------------------------------------------
// GPUs
// ---------------------------------------------------------------------

/// The text of `s` before the first occurrence of `p` (all of `s` when `p`
/// does not occur).
pub open spec fn before_first(s: Seq<char>, p: Seq<char>) -> Seq<char>
    decreases s.len(),
{
    if s.len() == 0 || starts_with(s, p) {
        Seq::empty()
    } else {
        seq![s[0]] + before_first(s.drop_first(), p)
    }
}

/// The GPU name in a line of `nvidia-smi -L`: the text after the first
/// `:` and before `(UUID`, trimmed; `None` when the line has no `:`.
pub open spec fn gpu_list_name(line: Seq<char>) -> Option<Seq<char>> {
    let parts = split_on(line, ':');
    if parts.len() >= 2 {
        Some(trim(before_first(parts[1], "(UUID"@)))
    } else {
        None
    }
}

/// Whether `s` starts with `p` from position `i` on.
fn starts_with_at(s: &Vec<char>, i: usize, p: &Vec<char>) -> (r: bool)
    requires
        i <= s@.len(),
    ensures
        r == starts_with(s@.skip(i as int), p@),
{
    let n: usize = s.len();
    if p.len() > n - i {
        return false;
    }
    let mut k: usize = 0;
    while k < p.len()
        invariant
            k <= p@.len(),
            n == s@.len(),
            i <= s@.len(),
            i + p@.len() <= s@.len(),
            forall|j: int| 0 <= j < k ==> s@[i + j] == p@[j],
        decreases p.len() - k,
    {
        if s[i + k] != p[k] {
            proof {
                assert(s@.skip(i as int).subrange(0, p@.len() as int)[k as int] != p@[k as int]);
            }
            return false;
        }
        k += 1;
    }
    proof {
        assert(s@.skip(i as int).subrange(0, p@.len() as int) =~= p@);
    }
    true
}

/// The text of `s` before the first occurrence of `p`.
fn before_first_chars(s: &Vec<char>, p: &Vec<char>) -> (out: Vec<char>)
    ensures
        out@ == before_first(s@, p@),
{
    let mut out: Vec<char> = Vec::new();
    let mut i: usize = 0;
    proof {
        assert(s@.skip(0) =~= s@);
        assert(s@.take(0) =~= Seq::<char>::empty());
    }
    while i < s.len() && !starts_with_at(s, i, p)
        invariant
            i <= s@.len(),
            out@ == s@.take(i as int),
            before_first(s@, p@) == s@.take(i as int) + before_first(s@.skip(i as int), p@),
        decreases s.len() - i,
    {
        proof {
            assert(s@.skip(i as int).drop_first() =~= s@.skip(i + 1));
            assert(s@.take(i + 1) =~= s@.take(i as int) + seq![s@[i as int]]);
            assert(s@.take(i as int) + before_first(s@.skip(i as int), p@) =~= s@.take(i + 1)
                + before_first(s@.skip(i + 1), p@));
        }
        out.push(s[i]);
        i += 1;
    }
    proof {
        assert(before_first(s@.skip(i as int), p@) =~= Seq::<char>::empty());
        assert(out@ + Seq::<char>::empty() =~= out@);
    }
    out
}

/// The GPU name in a line of `nvidia-smi -L` (see `gpu_list_name`).
pub fn listed_gpu_name(line: &str) -> (r: Option<String>)
    ensures
        match r {
            Some(s) => Some(s@),
            None => None,
        } == gpu_list_name(line@),
{
    let lv = chars_of(line);
    let parts = split_chars(&lv, ':');
    if parts.len() < 2 {
        return None;
    }
    let pat = chars_of("(UUID");
    let head = before_first_chars(&parts[1], &pat);
    let t = trim_chars(&head);
    proof {
        assert(views(parts@)[1] == parts@[1]@);
    }
    Some(string_of(&t))
}

/// The GPU names of a `nvidia-smi -L` listing: those of the lines that
/// start with `GPU ` and have a `:`.
pub open spec fn listed_gpu_names(ls: Seq<Seq<char>>) -> Seq<Seq<char>>
    decreases ls.len(),
{
    if ls.len() == 0 {
        Seq::empty()
    } else {
        let rest = listed_gpu_names(ls.drop_last());
        if starts_with(ls.last(), "GPU "@) {
            match gpu_list_name(ls.last()) {
                Some(n) => rest.push(n),
                None => rest,
            }
        } else {
            rest
        }
    }
}

/// The fields of a line of the GPU query, split at commas and trimmed.
pub open spec fn query_fields(line: Seq<char>) -> Seq<Seq<char>> {
    split_on(line, ',').map_values(|f: Seq<char>| trim(f))
}

/// The items the GPU query gives for its line number `idx`: name, memory
/// and driver when the line has three fields, and the maximum PCIe link
/// when it has five.
pub open spec fn query_line_items(idx: nat, line: Seq<char>) -> Seq<(Seq<char>, Seq<char>)> {
    let p = query_fields(line);
    let prefix = "GPU["@ + dec(idx) + "] "@;
    if p.len() >= 3 {
        seq![
            (prefix + "名称"@, p[0]),
            (prefix + "显存(MB)"@, p[1]),
            (prefix + "驱动版本"@, p[2]),
        ] + if p.len() >= 5 {
            seq![(prefix + "PCIe 最大链路"@, "Gen"@ + p[3] + " x"@ + p[4])]
        } else {
            Seq::empty()
        }
    } else {
        Seq::empty()
    }
}

/// The items the GPU query gives for all its lines.
pub open spec fn query_items(ls: Seq<Seq<char>>) -> Seq<(Seq<char>, Seq<char>)>
    decreases ls.len(),
{
    if ls.len() == 0 {
        Seq::empty()
    } else {
        query_items(ls.drop_last()) + query_line_items((ls.len() - 1) as nat, ls.last())
    }
}

/// The GPU items: the number of GPUs and their names (joined with ` / `)
/// when the listing names any, then the items of the query.
pub open spec fn gpu_items(listing: Seq<char>, query: Seq<char>) -> Seq<(Seq<char>, Seq<char>)> {
    let names = listed_gpu_names(lines(listing));
    (if names.len() > 0 {
        seq![("GPU 数量"@, dec(names.len())), ("GPU 型号"@, join(names, " / "@))]
    } else {
        Seq::empty()
    }) + query_items(lines(query))
}

fn push_query_items(specs: &mut Vec<HardwareSpec>, idx: usize, line: &Vec<char>)
    ensures
        spec_pairs(final(specs)@) == spec_pairs(old(specs)@) + query_line_items(idx as nat, line@),
{
    let raw = split_chars(line, ',');
    let mut p: Vec<Vec<char>> = Vec::new();
    let mut k: usize = 0;
    while k < raw.len()
        invariant
            k <= raw@.len(),
            views(raw@) == split_on(line@, ','),
            views(p@) =~= query_fields(line@).take(k as int),
        decreases raw.len() - k,
    {
        let t = trim_chars(&raw[k]);
        let ghost before = views(p@);
        p.push(t);
        proof {
            assert(views(p@) =~= before.push(trim(raw@[k as int]@)));
            assert(views(raw@)[k as int] == raw@[k as int]@);
        }
        k += 1;
    }
    proof {
        assert(query_fields(line@).take(raw@.len() as int) =~= query_fields(line@));
    }
    let ghost before = spec_pairs(specs@);
    if p.len() >= 3 {
        let mut prefix: Vec<char> = Vec::new();
        extend_str(&mut prefix, "GPU[");
        push_decimal(&mut prefix, idx);
        extend_str(&mut prefix, "] ");
        let mut name = prefix.clone();
        extend_str(&mut name, "名称");
        push_spec(specs, name, p[0].clone());
        let mut mem = prefix.clone();
        extend_str(&mut mem, "显存(MB)");
        push_spec(specs, mem, p[1].clone());
        let mut drv = prefix.clone();
        extend_str(&mut drv, "驱动版本");
        push_spec(specs, drv, p[2].clone());
        if p.len() >= 5 {
            let mut link = prefix.clone();
            extend_str(&mut link, "PCIe 最大链路");
            let mut val: Vec<char> = Vec::new();
            extend_str(&mut val, "Gen");
            extend_chars(&mut val, &p[3]);
            extend_str(&mut val, " x");
            extend_chars(&mut val, &p[4]);
            push_spec(specs, link, val);
        }
        proof {
            assert(views(p@)[0] == p@[0]@);
            assert(views(p@)[1] == p@[1]@);
            assert(views(p@)[2] == p@[2]@);
            if p.len() >= 5 {
                assert(views(p@)[3] == p@[3]@);
                assert(views(p@)[4] == p@[4]@);
            }
            assert(spec_pairs(specs@) =~= before + query_line_items(idx as nat, line@));
        }
    } else {
        proof {
            assert(spec_pairs(specs@) =~= before + query_line_items(idx as nat, line@));
        }
    }
}

/// The GPU items of the `nvidia-smi -L` listing and of the GPU query
/// (name, total memory, driver, maximum PCIe generation and width).
pub fn gpu_specs_from(listing: &str, query: &str) -> (specs: Vec<HardwareSpec>)
    ensures
        spec_pairs(specs@) == gpu_items(listing@, query@),
{
    let lv = chars_of(listing);
    let ls = lines_of(&lv);
    let gpu_prefix = chars_of("GPU ");
    let mut names: Vec<Vec<char>> = Vec::new();
    let mut i: usize = 0;
    while i < ls.len()
        invariant
            i <= ls@.len(),
            views(ls@) == lines(listing@),
            gpu_prefix@ == "GPU "@,
            views(names@) == listed_gpu_names(views(ls@).take(i as int)),
        decreases ls.len() - i,
    {
        proof {
            assert(views(ls@).take(i + 1).drop_last() =~= views(ls@).take(i as int));
            assert(views(ls@).take(i + 1).last() == ls@[i as int]@);
        }
        if starts_with_chars(&ls[i], &gpu_prefix) {
            let s = string_of(&ls[i]);
            match listed_gpu_name(s.as_str()) {
                Some(n) => {
                    let ghost before = views(names@);
                    names.push(chars_of(n.as_str()));
                    proof {
                        assert(views(names@) =~= before.push(n@));
                    }
                },
                None => {},
            }
        }
        i += 1;
    }
    proof {
        assert(views(ls@).take(ls@.len() as int) =~= views(ls@));
    }
    let mut specs: Vec<HardwareSpec> = Vec::new();
    if names.len() > 0 {
        let mut count_item: Vec<char> = Vec::new();
        extend_str(&mut count_item, "GPU 数量");
        let mut count: Vec<char> = Vec::new();
        push_decimal(&mut count, names.len());
        push_spec(&mut specs, count_item, count);
        let mut model_item: Vec<char> = Vec::new();
        extend_str(&mut model_item, "GPU 型号");
        let sep = chars_of(" / ");
        let joined = join_chars(&names, &sep);
        push_spec(&mut specs, model_item, joined);
    }
    let ghost head = spec_pairs(specs@);
    proof {
        assert(head =~= (if views(names@).len() > 0 {
            seq![("GPU 数量"@, dec(views(names@).len())), ("GPU 型号"@, join(views(names@), " / "@))]
        } else {
            Seq::<(Seq<char>, Seq<char>)>::empty()
        }));
    }
    let qv = chars_of(query);
    let qs = lines_of(&qv);
    let mut j: usize = 0;
    while j < qs.len()
        invariant
            j <= qs@.len(),
            views(qs@) == lines(query@),
            spec_pairs(specs@) == head + query_items(views(qs@).take(j as int)),
        decreases qs.len() - j,
    {
        proof {
            assert(views(qs@).take(j + 1).drop_last() =~= views(qs@).take(j as int));
            assert(views(qs@).take(j + 1).last() == qs@[j as int]@);
        }
        push_query_items(&mut specs, j, &qs[j]);
        proof {
            assert(head + query_items(views(qs@).take(j + 1)) =~= head + query_items(views(qs@).take(j as int))
                + query_line_items(j as nat, qs@[j as int]@));
        }
        j += 1;
    }
    proof {
        assert(views(qs@).take(qs@.len() as int) =~= views(qs@));
    }
    specs
}

// ---------------------------------------------------------------------
// CPU, memory and system
// ---------------------------------------------------------------------

/// The first of `ls` that starts with `p`.
pub open spec fn first_with_prefix(ls: Seq<Seq<char>>, p: Seq<char>) -> Option<Seq<char>>
    decreases ls.len(),
{
    if ls.len() == 0 {
        None
    } else if starts_with(ls[0], p) {
        Some(ls[0])
    } else {
        first_with_prefix(ls.drop_first(), p)
    }
}

/// The text after the first `:` of `l`, if it has one.
pub open spec fn after_colon(l: Seq<char>) -> Option<Seq<char>> {
    if l.contains(':') {
        Some(split_once(l, ':').1)
    } else {
        None
    }
}

/// The lines of `ls` that start with `p`, in order.
pub open spec fn prefixed(ls: Seq<Seq<char>>, p: Seq<char>) -> Seq<Seq<char>>
    decreases ls.len(),
{
    if ls.len() == 0 {
        Seq::empty()
    } else if starts_with(ls.last(), p) {
        prefixed(ls.drop_last(), p).push(ls.last())
    } else {
        prefixed(ls.drop_last(), p)
    }
}

/// The trimmed text after the `:` of the first line that starts with `p`;
/// empty when there is no such line or it has no `:`.
pub open spec fn field_value(ls: Seq<Seq<char>>, p: Seq<char>) -> Option<Seq<char>> {
    match first_with_prefix(ls, p) {
        Some(l) => match after_colon(l) {
            Some(v) => Some(trim(v)),
            None => None,
        },
        None => None,
    }
}

/// The CPU items of `/proc/cpuinfo`: the model name, the number of
/// `processor` lines, and the number of distinct `physical id` lines,
/// each where it is not empty or zero.
pub open spec fn cpu_items(cpuinfo: Seq<char>) -> Seq<(Seq<char>, Seq<char>)> {
    let ls = lines(cpuinfo);
    let model = match field_value(ls, "model name"@) {
        Some(v) => v,
        None => Seq::empty(),
    };
    let cores = prefixed(ls, "processor"@).len();
    let sockets = first_occurrences(prefixed(ls, "physical id"@)).len();
    (if model.len() > 0 { seq![("CPU 型号"@, model)] } else { Seq::empty() })
        + (if cores > 0 { seq![("CPU 逻辑核心数"@, dec(cores))] } else { Seq::empty() })
        + (if sockets > 0 { seq![("CPU 物理插槽数"@, dec(sockets))] } else { Seq::empty() })
}

/// The value of the first line of `ls` that starts with `p` (see `field_value`).
fn find_field_value(ls: &Vec<Vec<char>>, p: &str) -> (r: Option<Vec<char>>)
    ensures
        match r {
            Some(v) => Some(v@),
            None => None,
        } == field_value(views(ls@), p@),
{
    let pv = chars_of(p);
    let mut i: usize = 0;
    proof {
        assert(views(ls@).skip(0) =~= views(ls@));
    }
    while i < ls.len()
        invariant
            i <= ls@.len(),
            pv@ == p@,
            first_with_prefix(views(ls@), p@) == first_with_prefix(views(ls@).skip(i as int), p@),
        decreases ls.len() - i,
    {
        proof {
            assert(views(ls@).skip(i as int)[0] == ls@[i as int]@);
            assert(views(ls@).skip(i as int).drop_first() =~= views(ls@).skip(i + 1));
        }
        if starts_with_chars(&ls[i], &pv) {
            return match split_once_chars(&ls[i], ':') {
                Some((_, after)) => Some(trim_chars(&after)),
                None => None,
            };
        }
        i += 1;
    }
    None
}

/// The CPU items of `/proc/cpuinfo` (see `cpu_items`).
pub fn cpu_specs_from(cpuinfo: &str) -> (specs: Vec<HardwareSpec>)
    ensures
        spec_pairs(specs@) == cpu_items(cpuinfo@),
{
    let cv = chars_of(cpuinfo);
    let ls = lines_of(&cv);
    let model = find_field_value(&ls, "model name");
    let processor = chars_of("processor");
    let physical = chars_of("physical id");
    let mut cores: usize = 0;
    let mut ids: Vec<Vec<char>> = Vec::new();
    let mut i: usize = 0;
    while i < ls.len()
        invariant
            i <= ls@.len(),
            processor@ == "processor"@,
            physical@ == "physical id"@,
            cores == prefixed(views(ls@).take(i as int), "processor"@).len(),
            cores <= i,
            views(ids@) == first_occurrences(prefixed(views(ls@).take(i as int), "physical id"@)),
        decreases ls.len() - i,
    {
        proof {
            assert(views(ls@).take(i + 1).drop_last() =~= views(ls@).take(i as int));
            assert(views(ls@).take(i + 1).last() == ls@[i as int]@);
        }
        proof {
            let pre = prefixed(views(ls@).take(i as int), "physical id"@);
            if starts_with(ls@[i as int]@, "physical id"@) {
                assert(prefixed(views(ls@).take(i + 1), "physical id"@) == pre.push(ls@[i as int]@));
                assert(pre.push(ls@[i as int]@).drop_last() =~= pre);
            } else {
                assert(prefixed(views(ls@).take(i + 1), "physical id"@) == pre);
            }
        }
        if starts_with_chars(&ls[i], &processor) {
            cores += 1;
        }
        if starts_with_chars(&ls[i], &physical) {
            if !contains_text(&ids, &ls[i]) {
                let ghost before = views(ids@);
                ids.push(ls[i].clone());
                proof {
                    assert(views(ids@) =~= before.push(ls@[i as int]@));
                }
            }
        }
        i += 1;
    }
    proof {
        assert(views(ls@).take(ls@.len() as int) =~= views(ls@));
    }
    let mut specs: Vec<HardwareSpec> = Vec::new();
    let ghost s0 = spec_pairs(specs@);
    match model {
        Some(m) => {
            if m.len() > 0 {
                let mut item: Vec<char> = Vec::new();
                extend_str(&mut item, "CPU 型号");
                push_spec(&mut specs, item, m);
            }
        },
        None => {},
    }
    if cores > 0 {
        let mut item: Vec<char> = Vec::new();
        extend_str(&mut item, "CPU 逻辑核心数");
        let mut value: Vec<char> = Vec::new();
        push_decimal(&mut value, cores);
        push_spec(&mut specs, item, value);
    }
    if ids.len() > 0 {
        let mut item: Vec<char> = Vec::new();
        extend_str(&mut item, "CPU 物理插槽数");
        let mut value: Vec<char> = Vec::new();
        push_decimal(&mut value, ids.len());
        push_spec(&mut specs, item, value);
    }
    proof {
        assert(spec_pairs(specs@) =~= cpu_items(cpuinfo@));
    }
    specs
}

/// The second field of the second line of `free -h` (the total memory),
/// empty when there is none.
pub open spec fn free_total(free: Seq<char>) -> Seq<char> {
    let ls = lines(free);
    if ls.len() >= 2 && words(ls[1]).len() >= 2 {
        words(ls[1])[1]
    } else {
        Seq::empty()
    }
}

/// The memory items: the `MemTotal` value of `/proc/meminfo` where there
/// is one, then the readable total of `free -h`.
pub open spec fn memory_items(meminfo: Seq<char>, free: Seq<char>) -> Seq<(Seq<char>, Seq<char>)> {
    (match field_value(lines(meminfo), "MemTotal:"@) {
        Some(v) => seq![("内存总量"@, v)],
        None => Seq::empty(),
    }) + seq![("内存总量(可读)"@, free_total(free))]
}

/// The memory items of `/proc/meminfo` and `free -h` (see `memory_items`).
pub fn memory_specs_from(meminfo: &str, free: &str) -> (specs: Vec<HardwareSpec>)
    ensures
        spec_pairs(specs@) == memory_items(meminfo@, free@),
{
    let mv = chars_of(meminfo);
    let ls = lines_of(&mv);
    let mut specs: Vec<HardwareSpec> = Vec::new();
    match find_field_value(&ls, "MemTotal:") {
        Some(v) => {
            let mut item: Vec<char> = Vec::new();
            extend_str(&mut item, "内存总量");
            push_spec(&mut specs, item, v);
        },
        None => {},
    }
    let fv = chars_of(free);
    let fl = lines_of(&fv);
    let mut total: Vec<char> = Vec::new();
    if fl.len() >= 2 {
        let w = words_of(&fl[1]);
        if w.len() >= 2 {
            total = w[1].clone();
            proof {
                assert(views(fl@)[1] == fl@[1]@);
                assert(views(w@)[1] == w@[1]@);
            }
        } else {
            proof {
                assert(views(fl@)[1] == fl@[1]@);
            }
        }
    }
    let mut item: Vec<char> = Vec::new();
    extend_str(&mut item, "内存总量(可读)");
    push_spec(&mut specs, item, total);
    proof {
        assert(spec_pairs(specs@) =~= memory_items(meminfo@, free@));
    }
    specs
}

/// The system items: the operating system (`uname -srm`) where known, and
/// the kernel release (`uname -r`).
pub open spec fn system_items(uname: Seq<char>, kernel: Seq<char>) -> Seq<(Seq<char>, Seq<char>)> {
    (if uname.len() > 0 { seq![("操作系统"@, uname)] } else { Seq::empty() }) + seq![("内核版本"@, kernel)]
}

/// The system items (see `system_items`).
pub fn system_specs_from(uname: &str, kernel: &str) -> (specs: Vec<HardwareSpec>)
    ensures
        spec_pairs(specs@) == system_items(uname@, kernel@),
{
    let mut specs: Vec<HardwareSpec> = Vec::new();
    let uv = chars_of(uname);
    if uv.len() > 0 {
        let mut item: Vec<char> = Vec::new();
        extend_str(&mut item, "操作系统");
        push_spec(&mut specs, item, uv);
    }
    let mut item: Vec<char> = Vec::new();
    extend_str(&mut item, "内核版本");
    push_spec(&mut specs, item, chars_of(kernel));
    proof {
        assert(spec_pairs(specs@) =~= system_items(uname@, kernel@));
    }
    specs
}

/// The topology item: `nvidia-smi topo -m` without ANSI sequences, where
/// that is not empty.
pub open spec fn topology_items(topo: Seq<char>) -> Seq<(Seq<char>, Seq<char>)> {
    if without_ansi(topo).len() > 0 {
        seq![("GPU 拓扑结构"@, without_ansi(topo))]
    } else {
        Seq::empty()
    }
}

/// The topology item (see `topology_items`).
pub fn topology_specs_from(topo: &str) -> (specs: Vec<HardwareSpec>)
    ensures
        spec_pairs(specs@) == topology_items(topo@),
{
    let mut specs: Vec<HardwareSpec> = Vec::new();
    let stripped = strip_ansi_escape_sequences(topo);
    let sv = chars_of(stripped.as_str());
    if sv.len() > 0 {
        let mut item: Vec<char> = Vec::new();
        extend_str(&mut item, "GPU 拓扑结构");
        push_spec(&mut specs, item, sv);
    }
    proof {
        assert(spec_pairs(specs@) =~= topology_items(topo@));
    }
    specs
}

/// The CUDA item: the first line of the `nvcc --version` release line,
/// trimmed, where there is one.
pub open spec fn cuda_items(nvcc: Seq<char>) -> Seq<(Seq<char>, Seq<char>)> {
    if nvcc.len() > 0 {
        let first = if lines(nvcc).len() > 0 { lines(nvcc)[0] } else { nvcc };
        seq![("CUDA 版本"@, trim(first))]
    } else {
        Seq::empty()
    }
}

/// The CUDA item (see `cuda_items`).
pub fn cuda_specs_from(nvcc: &str) -> (specs: Vec<HardwareSpec>)
    ensures
        spec_pairs(specs@) == cuda_items(nvcc@),
{
    let mut specs: Vec<HardwareSpec> = Vec::new();
    let nv = chars_of(nvcc);
    if nv.len() > 0 {
        let ls = lines_of(&nv);
        let first = if ls.len() > 0 {
            proof {
                assert(views(ls@)[0] == ls@[0]@);
            }
            trim_chars(&ls[0])
        } else {
            trim_chars(&nv)
        };
        let mut item: Vec<char> = Vec::new();
        extend_str(&mut item, "CUDA 版本");
        push_spec(&mut specs, item, first);
    }
    proof {
        assert(spec_pairs(specs@) =~= cuda_items(nvcc@));
    }
    specs
}

} // verus!
