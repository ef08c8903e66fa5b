//! How many GPUs a run uses and what they are called, from the device
//! selection, `CUDA_VISIBLE_DEVICES`, and the listings of `nvidia-smi`.
use vstd::prelude::*;
use crate::text::{
    chars_eq, chars_eq_str, chars_of, dec, decimal_string, is_ascii_digit, is_digit, join,
    join_chars, lines, lines_of, parse_usize, parse_usize_chars, split_chars, split_on,
    starts_with, starts_with_chars, string_of, string_views, trim, trim_chars, views,
};

verus! {

/// An item of `CUDA_VISIBLE_DEVICES` that names a device: not blank and not `-1`.
pub open spec fn names_device(p: Seq<char>) -> bool {
    trim(p).len() > 0 && trim(p) != "-1"@
}

/// How many items name a device.
pub open spec fn count_named(parts: Seq<Seq<char>>) -> nat
    decreases parts.len(),
{
    if parts.len() == 0 {
        0
    } else {
        count_named(parts.drop_last()) + if names_device(parts.last()) {
            1nat
        } else {
            0nat
        }
    }
}

/// The number of devices a `CUDA_VISIBLE_DEVICES` value names, if any.
pub open spec fn cuda_visible_count(value: Seq<char>) -> Option<usize> {
    let c = count_named(split_on(value, ','));
    if c > 0 {
        Some(c as usize)
    } else {
        None
    }
}

proof fn lemma_count_named_bound(parts: Seq<Seq<char>>)
    ensures
        count_named(parts) <= parts.len(),
    decreases parts.len(),
{
    if parts.len() > 0 {
        lemma_count_named_bound(parts.drop_last());
    }
}

/// The number of devices named by a `CUDA_VISIBLE_DEVICES` value: its
/// comma-separated items that are neither blank nor `-1`; `None` for none.
pub fn parse_cuda_visible_device_count(value: &str) -> (r: Option<usize>)
    ensures
        r == cuda_visible_count(value@),
{
    let v = chars_of(value);
    let parts = split_chars(&v, ',');
    let ghost ps = views(parts@);
    let mut count: usize = 0;
    let mut i: usize = 0;
    proof {
        assert(ps.take(0) =~= Seq::<Seq<char>>::empty());
    }
    while i < parts.len()
        invariant
            i <= parts.len(),
            ps == views(parts@),
            count == count_named(ps.take(i as int)),
            count <= i,
        decreases parts.len() - i,
    {
        proof {
            assert(ps.take(i + 1).drop_last() =~= ps.take(i as int));
            assert(ps.take(i + 1).last() == parts@[i as int]@);
        }
        let t = trim_chars(&parts[i]);
        if t.len() > 0 && !chars_eq_str(&t, "-1") {
            count += 1;
        }
        i += 1;
    }
    proof {
        assert(ps.take(parts.len() as int) =~= ps);
    }
    if count > 0 {
        Some(count)
    } else {
        None
    }
}

/// The number of GPUs a run uses as far as the selection and the
/// environment tell: none for `none`, the selected devices when some are
/// named, else the count `CUDA_VISIBLE_DEVICES` gives; `None` when these
/// do not tell and the GPU listing must be asked.
pub open spec fn visible_count(
    label: Seq<char>,
    devices: Seq<String>,
    cuda_visible_devices: Option<Seq<char>>,
) -> Option<usize> {
    if label == "none"@ {
        Some(0usize)
    } else if devices.len() > 0 {
        Some(devices.len() as usize)
    } else {
        match cuda_visible_devices {
            Some(v) => cuda_visible_count(v),
            None => None,
        }
    }
}

/// The number of GPUs a run uses, written in decimal (see `visible_count`).
pub fn infer_visible_gpu_count(
    gpu_devices_label: &str,
    gpu_devices: &[String],
    cuda_visible_devices: Option<&str>,
) -> (r: Option<String>)
    ensures
        match r {
            Some(s) => Some(s@),
            None => None,
        } == match visible_count(
            gpu_devices_label@,
            gpu_devices@,
            match cuda_visible_devices {
                Some(v) => Some(v@),
                None => None,
            },
        ) {
            Some(n) => Some(dec(n as nat)),
            None => None,
        },
{
    let label = chars_of(gpu_devices_label);
    if chars_eq_str(&label, "none") {
        return Some(decimal_string(0));
    }
    if gpu_devices.len() > 0 {
        return Some(decimal_string(gpu_devices.len()));
    }
    match cuda_visible_devices {
        Some(v) => match parse_cuda_visible_device_count(v) {
            Some(n) => Some(decimal_string(n)),
            None => None,
        },
        None => None,
    }
}

/// How many lines of a GPU listing (`nvidia-smi -L`) describe a GPU.
pub open spec fn listed_gpus(ls: Seq<Seq<char>>) -> nat
    decreases ls.len(),
{
    if ls.len() == 0 {
        0
    } else {
        listed_gpus(ls.drop_last()) + if starts_with(trim(ls.last()), "GPU "@) {
            1nat
        } else {
            0nat
        }
    }
}

/// The number of GPUs in a listing: the lines that start with `GPU `
/// once trimmed.
pub fn gpu_listing_count(listing: &str) -> (n: usize)
    ensures
        n == listed_gpus(lines(listing@)),
{
    let v = chars_of(listing);
    let ls = lines_of(&v);
    let ghost ps = views(ls@);
    let prefix = chars_of("GPU ");
    let mut count: usize = 0;
    let mut i: usize = 0;
    proof {
        assert(ps.take(0) =~= Seq::<Seq<char>>::empty());
    }
    while i < ls.len()
        invariant
            i <= ls.len(),
            ps == views(ls@),
            prefix@ == "GPU "@,
            count == listed_gpus(ps.take(i as int)),
            count <= i,
        decreases ls.len() - i,
    {
        proof {
            assert(ps.take(i + 1).drop_last() =~= ps.take(i as int));
            assert(ps.take(i + 1).last() == ls@[i as int]@);
        }
        let t = trim_chars(&ls[i]);
        if starts_with_chars(&t, &prefix) {
            count += 1;
        }
        i += 1;
    }
    proof {
        assert(ps.take(ls.len() as int) =~= ps);
    }
    count
}

/// The ASCII digits of `s`, in order.
pub open spec fn digits_of(s: Seq<char>) -> Seq<char>
    decreases s.len(),
{
    if s.len() == 0 {
        s
    } else if is_digit(s.last()) {
        digits_of(s.drop_last()).push(s.last())
    } else {
        digits_of(s.drop_last())
    }
}

/// The trimmed non-empty lines of a listing.
pub open spec fn listed_names(ls: Seq<Seq<char>>) -> Seq<Seq<char>>
    decreases ls.len(),
{
    if ls.len() == 0 {
        Seq::empty()
    } else if trim(ls.last()).len() > 0 {
        listed_names(ls.drop_last()).push(trim(ls.last()))
    } else {
        listed_names(ls.drop_last())
    }
}

/// The names of the selected devices: for each device, the listed name at
/// the index its digits spell, where there is one.
pub open spec fn selected_names(devices: Seq<Seq<char>>, all: Seq<Seq<char>>) -> Seq<Seq<char>>
    decreases devices.len(),
{
    if devices.len() == 0 {
        Seq::empty()
    } else {
        let rest = selected_names(devices.drop_last(), all);
        match parse_usize(digits_of(devices.last())) {
            Ok(i) => if i < all.len() {
                rest.push(all[i as int])
            } else {
                rest
            },
            Err(_) => rest,
        }
    }
}

/// `s` with later repetitions removed.
pub open spec fn first_occurrences(s: Seq<Seq<char>>) -> Seq<Seq<char>>
    decreases s.len(),
{
    if s.len() == 0 {
        s
    } else if first_occurrences(s.drop_last()).contains(s.last()) {
        first_occurrences(s.drop_last())
    } else {
        first_occurrences(s.drop_last()).push(s.last())
    }
}

/// The GPU name for the report: empty for `none`; otherwise the names of
/// the selected devices (all listed ones when none is selected or found),
/// each once, joined with ` / `; `None` without a listing or with an empty one.
pub open spec fn gpu_name_of(
    label: Seq<char>,
    devices: Seq<Seq<char>>,
    listing: Option<Seq<char>>,
) -> Option<Seq<char>> {
    if label == "none"@ {
        Some(Seq::empty())
    } else {
        match listing {
            None => None,
            Some(text) => {
                let all = listed_names(lines(text));
                if all.len() == 0 {
                    None
                } else {
                    let selected = if devices.len() == 0 {
                        all
                    } else {
                        selected_names(devices, all)
                    };
                    let names = if selected.len() == 0 {
                        all
                    } else {
                        selected
                    };
                    Some(join(first_occurrences(names), " / "@))
                }
            },
        }
    }
}

fn digits_in(s: &Vec<char>) -> (out: Vec<char>)
    ensures
        out@ == digits_of(s@),
{
    let mut out: Vec<char> = Vec::new();
    let mut i: usize = 0;
    proof {
        assert(s@.take(0) =~= Seq::<char>::empty());
    }
    while i < s.len()
        invariant
            i <= s.len(),
            out@ == digits_of(s@.take(i as int)),
        decreases s.len() - i,
    {
        proof {
            assert(s@.take(i + 1).drop_last() =~= s@.take(i as int));
        }
        if is_ascii_digit(s[i]) {
            out.push(s[i]);
        }
        i += 1;
    }
    proof {
        assert(s@.take(s.len() as int) =~= s@);
    }
    out
}

pub(crate) fn contains_text(v: &Vec<Vec<char>>, x: &Vec<char>) -> (r: bool)
    ensures
        r == views(v@).contains(x@),
{
    let mut i: usize = 0;
    while i < v.len()
        invariant
            i <= v.len(),
            forall|k: int| 0 <= k < i ==> v@[k]@ != x@,
        decreases v.len() - i,
    {
        if chars_eq(&v[i], x) {
            proof {
                assert(views(v@)[i as int] == x@);
            }
            return true;
        }
        i += 1;
    }
    proof {
        if views(v@).contains(x@) {
            let k = choose|k: int| 0 <= k < views(v@).len() && views(v@)[k] == x@;
            assert(v@[k]@ == x@);
        }
    }
    false
}

/// The name of the GPUs a run uses, for the report (see `gpu_name_of`),
/// given the listing of GPU names (`None` when it could not be had).
pub fn infer_gpu_name(
    gpu_devices_label: &str,
    gpu_devices: &[String],
    gpu_names_listing: Option<&str>,
) -> (r: Option<String>)
    ensures
        match r {
            Some(s) => gpu_name_of(
                gpu_devices_label@,
                string_views(gpu_devices@),
                match gpu_names_listing {
                    Some(t) => Some(t@),
                    None => None,
                },
            ) == Some(s@),
            None => gpu_name_of(
                gpu_devices_label@,
                string_views(gpu_devices@),
                match gpu_names_listing {
                    Some(t) => Some(t@),
                    None => None,
                },
            ) is None,
        },
{
    let label = chars_of(gpu_devices_label);
    if chars_eq_str(&label, "none") {
        return Some(String::new());
    }
    let text = match gpu_names_listing {
        None => {
            return None;
        },
        Some(t) => t,
    };
    let tv = chars_of(text);
    let ls = lines_of(&tv);
    let ghost lsv = views(ls@);
    let mut all: Vec<Vec<char>> = Vec::new();
    let mut i: usize = 0;
    proof {
        assert(lsv.take(0) =~= Seq::<Seq<char>>::empty());
        assert(views(all@) =~= Seq::<Seq<char>>::empty());
    }
    while i < ls.len()
        invariant
            i <= ls.len(),
            lsv == views(ls@),
            views(all@) == listed_names(lsv.take(i as int)),
        decreases ls.len() - i,
    {
        proof {
            assert(lsv.take(i + 1).drop_last() =~= lsv.take(i as int));
            assert(lsv.take(i + 1).last() == ls@[i as int]@);
        }
        let t = trim_chars(&ls[i]);
        if t.len() > 0 {
            let ghost before = views(all@);
            all.push(t);
            proof {
                assert(views(all@) =~= before.push(t@));
            }
        }
        i += 1;
    }
    proof {
        assert(lsv.take(ls.len() as int) =~= lsv);
    }
    if all.len() == 0 {
        return None;
    }
    let ghost devs = string_views(gpu_devices@);
    let mut selected: Vec<Vec<char>> = Vec::new();
    if gpu_devices.len() > 0 {
        let mut d: usize = 0;
        proof {
            assert(devs.take(0) =~= Seq::<Seq<char>>::empty());
            assert(views(selected@) =~= Seq::<Seq<char>>::empty());
        }
        while d < gpu_devices.len()
            invariant
                d <= gpu_devices@.len(),
                devs == string_views(gpu_devices@),
                views(selected@) == selected_names(devs.take(d as int), views(all@)),
            decreases gpu_devices.len() - d,
        {
            proof {
                assert(devs.take(d + 1).drop_last() =~= devs.take(d as int));
                assert(devs.take(d + 1).last() == gpu_devices@[d as int]@);
            }
            let dv = chars_of(gpu_devices[d].as_str());
            let digits = digits_in(&dv);
            match parse_usize_chars(&digits) {
                Ok(idx) => {
                    if idx < all.len() {
                        let ghost before = views(selected@);
                        let name = all[idx].clone();
                        selected.push(name);
                        proof {
                            assert(views(selected@) =~= before.push(views(all@)[idx as int]));
                        }
                    }
                },
                Err(_) => {},
            }
            d += 1;
        }
        proof {
            assert(devs.take(gpu_devices.len() as int) =~= devs);
        }
    }
    let names = if gpu_devices.len() == 0 || selected.len() == 0 {
        all
    } else {
        selected
    };
    let ghost nv = views(names@);
    let mut unique: Vec<Vec<char>> = Vec::new();
    let mut k: usize = 0;
    proof {
        assert(nv.take(0) =~= Seq::<Seq<char>>::empty());
        assert(views(unique@) =~= Seq::<Seq<char>>::empty());
    }
    while k < names.len()
        invariant
            k <= names.len(),
            nv == views(names@),
            views(unique@) == first_occurrences(nv.take(k as int)),
        decreases names.len() - k,
    {
        proof {
            assert(nv.take(k + 1).drop_last() =~= nv.take(k as int));
            assert(nv.take(k + 1).last() == names@[k as int]@);
        }
        if !contains_text(&unique, &names[k]) {
            let ghost before = views(unique@);
            let n = names[k].clone();
            unique.push(n);
            proof {
                assert(views(unique@) =~= before.push(nv[k as int]));
            }
        }
        k += 1;
    }
    proof {
        assert(nv.take(names.len() as int) =~= nv);
    }
    let sep = chars_of(" / ");
    let joined = join_chars(&unique, &sep);
    Some(string_of(&joined))
}

} // verus!
