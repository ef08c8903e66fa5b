//! The `llama-server` command line, and whether a model listing names the
//! model the tool started.
use vstd::prelude::*;
use crate::text::{
    chars_eq_str, chars_of, dec, decimal_string, extend_str, join, join_strings, push_decimal,
    push_text, string_of, string_views,
};
use crate::text::{
    ascii_lower, digit_char, is_ascii_text, remove_char, replace_char, trim_end, trim_start,
};
use crate::matrix::{gpu_selection, gpu_text};

verus! {

/// The arguments of the server command before any device option.
pub open spec fn server_base_args(
    bin: Seq<char>,
    model_path: Seq<char>,
    model_name: Seq<char>,
    port: u16,
    parallel_size: usize,
    ctx_size: usize,
    batch_size: usize,
    gpu_layers: usize,
) -> Seq<Seq<char>> {
    seq![
        bin,
        "--model"@,
        model_path,
        "--alias"@,
        model_name,
        "--host"@,
        "0.0.0.0"@,
        "--port"@,
        dec(port as nat),
        "--parallel"@,
        dec(parallel_size as nat),
        "--ctx-size"@,
        dec(ctx_size as nat),
        "--batch-size"@,
        dec(batch_size as nat),
        "--cont-batching"@,
        "--metrics"@,
        "-ngl"@,
        dec(gpu_layers as nat),
    ]
}

/// The device option: `--device` with the devices joined by commas, unless
/// no device is named or the first is `none`.
pub open spec fn device_args(devices: Seq<Seq<char>>) -> Seq<Seq<char>> {
    if devices.len() > 0 && devices[0] != "none"@ {
        seq!["--device"@, join(devices, ","@)]
    } else {
        Seq::empty()
    }
}

/// The command line that starts `llama-server` for one context group.
pub fn build_server_command(
    llama_server_bin: &str,
    model_path: &str,
    model_name: &str,
    port: u16,
    gpu_devices: &[String],
    parallel_size: usize,
    ctx_size: usize,
    batch_size: usize,
    gpu_layers: usize,
) -> (cmd: Vec<String>)
    ensures
        string_views(cmd@) == server_base_args(
            llama_server_bin@,
            model_path@,
            model_name@,
            port,
            parallel_size,
            ctx_size,
            batch_size,
            gpu_layers,
        ) + device_args(string_views(gpu_devices@)),
{
    let mut cmd: Vec<String> = Vec::new();
    push_text(&mut cmd, llama_server_bin.to_owned());
    push_text(&mut cmd, "--model".to_owned());
    push_text(&mut cmd, model_path.to_owned());
    push_text(&mut cmd, "--alias".to_owned());
    push_text(&mut cmd, model_name.to_owned());
    push_text(&mut cmd, "--host".to_owned());
    push_text(&mut cmd, "0.0.0.0".to_owned());
    push_text(&mut cmd, "--port".to_owned());
    push_text(&mut cmd, decimal_string(port as usize));
    push_text(&mut cmd, "--parallel".to_owned());
    push_text(&mut cmd, decimal_string(parallel_size));
    push_text(&mut cmd, "--ctx-size".to_owned());
    push_text(&mut cmd, decimal_string(ctx_size));
    push_text(&mut cmd, "--batch-size".to_owned());
    push_text(&mut cmd, decimal_string(batch_size));
    push_text(&mut cmd, "--cont-batching".to_owned());
    push_text(&mut cmd, "--metrics".to_owned());
    push_text(&mut cmd, "-ngl".to_owned());
    push_text(&mut cmd, decimal_string(gpu_layers));
    let ghost base = string_views(cmd@);
    proof {
        assert(base =~= server_base_args(
            llama_server_bin@,
            model_path@,
            model_name@,
            port,
            parallel_size,
            ctx_size,
            batch_size,
            gpu_layers,
        ));
    }
    if gpu_devices.len() > 0 {
        let first = chars_of(gpu_devices[0].as_str());
        if !chars_eq_str(&first, "none") {
            push_text(&mut cmd, "--device".to_owned());
            push_text(&mut cmd, join_strings(gpu_devices, ","));
            proof {
                assert(string_views(gpu_devices@)[0] == gpu_devices@[0]@);
                assert(string_views(cmd@) =~= base + device_args(string_views(gpu_devices@)));
            }
            return cmd;
        }
        proof {
            assert(string_views(gpu_devices@)[0] == gpu_devices@[0]@);
        }
    }
    proof {
        assert(string_views(cmd@) =~= base + device_args(string_views(gpu_devices@)));
    }
    cmd
}

/// One model that the server's model listing describes: its `id`, `name`
/// and `model` texts (empty when absent or not text) and its text aliases.
#[derive(Clone, Debug)]
pub struct ModelEntry {
    pub id: String,
    pub name: String,
    pub model: String,
    pub aliases: Vec<String>,
}

/// The names by which a listed model can be asked for.
pub open spec fn entry_names(e: ModelEntry) -> Seq<Seq<char>> {
    seq![e.id@, e.name@, e.model@] + string_views(e.aliases@)
}

/// Some listed model goes by `model_name`.
pub open spec fn listing_names(entries: Seq<ModelEntry>, model_name: Seq<char>) -> bool {
    exists|i: int, j: int|
        0 <= i < entries.len() && 0 <= j < entry_names(entries[i]).len() && #[trigger] entry_names(
            entries[i],
        )[j] == model_name
}

fn entry_goes_by(e: &ModelEntry, model_name: &str) -> (r: bool)
    ensures
        r == exists|j: int| 0 <= j < entry_names(*e).len() && #[trigger] entry_names(*e)[j] == model_name@,
{
    let ghost names = entry_names(*e);
    let id = chars_of(e.id.as_str());
    if chars_eq_str(&id, model_name) {
        assert(names[0] == model_name@);
        return true;
    }
    let name = chars_of(e.name.as_str());
    if chars_eq_str(&name, model_name) {
        assert(names[1] == model_name@);
        return true;
    }
    let model = chars_of(e.model.as_str());
    if chars_eq_str(&model, model_name) {
        assert(names[2] == model_name@);
        return true;
    }
    let mut k: usize = 0;
    while k < e.aliases.len()
        invariant
            k <= e.aliases@.len(),
            names == entry_names(*e),
            names[0] != model_name@,
            names[1] != model_name@,
            names[2] != model_name@,
            forall|m: int| 0 <= m < k ==> e.aliases@[m]@ != model_name@,
        decreases e.aliases.len() - k,
    {
        let a = chars_of(e.aliases[k].as_str());
        if chars_eq_str(&a, model_name) {
            assert(names[3 + k] == model_name@);
            return true;
        }
        k += 1;
    }
    proof {
        assert forall|j: int| 0 <= j < names.len() implies #[trigger] names[j] != model_name@ by {
            if j >= 3 {
                assert(names[j] == e.aliases@[j - 3]@);
            }
        }
    }
    false
}

/// Whether some model of the server's listing goes by `model_name`, as its
/// id, name, model or one of its aliases.
pub fn model_response_matches(entries: &[ModelEntry], model_name: &str) -> (r: bool)
    ensures
        r == listing_names(entries@, model_name@),
{
    let mut i: usize = 0;
    while i < entries.len()
        invariant
            i <= entries@.len(),
            forall|m: int, j: int|
                0 <= m < i && 0 <= j < entry_names(entries@[m]).len() ==> #[trigger] entry_names(
                    entries@[m],
                )[j] != model_name@,
        decreases entries.len() - i,
    {
        if entry_goes_by(&entries[i], model_name) {
            return true;
        }
        i += 1;
    }
    false
}

/// What waiting for the server makes of one answer of its model listing.
#[derive(Clone, Copy, Debug, PartialEq, Eq, Structural)]
pub enum ReadyStep {
    /// The server is up and serves the model it was started with.
    Ready,
    /// Something answers on the port, but with another model.
    WrongModel,
    /// No usable answer yet; keep waiting.
    Wait,
}

/// The step for an answer with HTTP status `status` and, where its body
/// was a model listing, the models it lists.
pub open spec fn ready_step_of(status: u16, entries: Option<Seq<ModelEntry>>, model_name: Seq<char>) -> ReadyStep {
    if status == 200 {
        match entries {
            Some(es) => if listing_names(es, model_name) { ReadyStep::Ready } else { ReadyStep::WrongModel },
            None => ReadyStep::Wait,
        }
    } else {
        ReadyStep::Wait
    }
}

/// What to make of one answer of the server's model listing: ready when
/// it answers 200 listing the model, the wrong model when it answers 200
/// with a listing without it, else keep waiting.
pub fn ready_step(status: u16, entries: Option<&[ModelEntry]>, model_name: &str) -> (s: ReadyStep)
    ensures
        s == ready_step_of(
            status,
            match entries {
                Some(es) => Some(es@),
                None => None,
            },
            model_name@,
        ),
{
    if status != 200 {
        return ReadyStep::Wait;
    }
    match entries {
        Some(es) => if model_response_matches(es, model_name) { ReadyStep::Ready } else { ReadyStep::WrongModel },
        None => ReadyStep::Wait,
    }
}

/// The error when another model answers on the port.
pub fn wrong_model_error(port: u16, model_name: &str) -> (e: String)
    ensures
        e@ == "端口 "@ + dec(port as nat) + " 返回了 200，但模型名不是当前启动的 "@ + model_name@,
{
    let mut v: Vec<char> = Vec::new();
    extend_str(&mut v, "端口 ");
    push_decimal(&mut v, port as usize);
    extend_str(&mut v, " 返回了 200，但模型名不是当前启动的 ");
    extend_str(&mut v, model_name);
    string_of(&v)
}

/// The error when the server did not come up in time.
pub fn ready_timeout_error(port: u16) -> (e: String)
    ensures
        e@ == "等待服务启动超时: http://127.0.0.1:"@ + dec(port as nat) + "/v1/models"@,
{
    let mut v: Vec<char> = Vec::new();
    extend_str(&mut v, "等待服务启动超时: http://127.0.0.1:");
    push_decimal(&mut v, port as usize);
    extend_str(&mut v, "/v1/models");
    string_of(&v)
}

/// The error when the port is already taken before a server starts.
pub fn port_busy_error(port: u16) -> (e: String)
    ensures
        e@ == "端口 "@ + dec(port as nat) + " 已被占用，拒绝复用旧服务"@,
{
    let mut v: Vec<char> = Vec::new();
    extend_str(&mut v, "端口 ");
    push_decimal(&mut v, port as usize);
    extend_str(&mut v, " 已被占用，拒绝复用旧服务");
    string_of(&v)
}

proof fn lemma_dec_ends_in_digit(n: nat)
    ensures
        dec(n).len() > 0,
        dec(n).last() == digit_char(n % 10),
{
}

proof fn lemma_not_device_flag(t: Seq<char>)
    requires
        t.len() > 0,
        0x30 <= (t.last() as u32) <= 0x39,
    ensures
        t != "--device"@,
{
    reveal_strlit("--device");
    if t == "--device"@ {
        assert(t.last() == 'e');
    }
}

/// A text made only of ASCII small letters is its own normalised device
/// selection text.
proof fn lemma_small_letters_normalise_to_themselves(s: Seq<char>)
    requires
        forall|i: int| 0 <= i < s.len() ==> 0x61 <= (#[trigger] s[i] as u32) <= 0x7a,
    ensures
        gpu_text(s) == s,
    decreases s.len(),
{
    assert(trim_start(s) == s);
    assert(trim_end(s) == s);
    assert(replace_char(s, '，', ',') =~= s);
    lemma_remove_absent(s, ' ');
    assert(is_ascii_text(s));
    assert(ascii_lower(s) =~= s);
}

proof fn lemma_remove_absent(s: Seq<char>, c: char)
    requires
        !s.contains(c),
    ensures
        remove_char(s, c) == s,
    decreases s.len(),
{
    if s.len() > 0 {
        assert(!s.drop_last().contains(c)) by {
            if s.drop_last().contains(c) {
                let k = choose|k: int| 0 <= k < s.drop_last().len() && s.drop_last()[k] == c;
                assert(s[k] == c);
            }
        }
        lemma_remove_absent(s.drop_last(), c);
        assert(s.last() != c) by {
            assert(s[s.len() - 1] == s.last());
        }
        assert(s.drop_last().push(s.last()) =~= s);
    }
}

/// The selections `all`, `none` and `cpu`, and the empty selection, are
/// their own normalised device selection texts.
pub proof fn law_plain_selections_normalise_to_themselves()
    ensures
        gpu_text("all"@) == "all"@,
        gpu_text("none"@) == "none"@,
        gpu_text("cpu"@) == "cpu"@,
        gpu_text(""@) == ""@,
{
    reveal_strlit("all");
    reveal_strlit("none");
    reveal_strlit("cpu");
    reveal_strlit("");
    lemma_small_letters_normalise_to_themselves("all"@);
    lemma_small_letters_normalise_to_themselves("none"@);
    lemma_small_letters_normalise_to_themselves("cpu"@);
    lemma_small_letters_normalise_to_themselves(""@);
}

/// A device selection that normalises to `all`, `none`, `cpu` or nothing
/// (so `all`, `ALL`, ` none `, `cpu` or an empty selection) is accepted,
/// and the server command built with its device list holds no `--device`
/// option, unless the binary, model path or model name is itself the text
/// `--device`.
pub proof fn law_no_device_option_without_gpu_list(
    selection: Seq<char>,
    bin: Seq<char>,
    model_path: Seq<char>,
    model_name: Seq<char>,
    port: u16,
    parallel_size: usize,
    ctx_size: usize,
    batch_size: usize,
    gpu_layers: usize,
)
    requires
        gpu_text(selection) == ""@ || gpu_text(selection) == "all"@ || gpu_text(selection) == "none"@
            || gpu_text(selection) == "cpu"@,
        bin != "--device"@,
        model_path != "--device"@,
        model_name != "--device"@,
    ensures
        gpu_selection(gpu_text(selection)) is Ok,
        gpu_selection(gpu_text(selection)) matches Ok(sel) && !(server_base_args(
            bin,
            model_path,
            model_name,
            port,
            parallel_size,
            ctx_size,
            batch_size,
            gpu_layers,
        ) + device_args(sel.1)).contains("--device"@),
{
    reveal_strlit("");
    reveal_strlit("all");
    reveal_strlit("none");
    reveal_strlit("cpu");
    reveal_strlit("--device");
    reveal_strlit("--model");
    reveal_strlit("--alias");
    reveal_strlit("--host");
    reveal_strlit("0.0.0.0");
    reveal_strlit("--port");
    reveal_strlit("--parallel");
    reveal_strlit("--ctx-size");
    reveal_strlit("--batch-size");
    reveal_strlit("--cont-batching");
    reveal_strlit("--metrics");
    reveal_strlit("-ngl");
    let n = gpu_text(selection);
    let sel = gpu_selection(n).get_Ok_0();
    assert(sel.1.len() == 0 || sel.1[0] == "none"@);
    assert(device_args(sel.1) =~= Seq::<Seq<char>>::empty());
    let args = server_base_args(bin, model_path, model_name, port, parallel_size, ctx_size, batch_size, gpu_layers);
    lemma_dec_ends_in_digit(port as nat);
    lemma_dec_ends_in_digit(parallel_size as nat);
    lemma_dec_ends_in_digit(ctx_size as nat);
    lemma_dec_ends_in_digit(batch_size as nat);
    lemma_dec_ends_in_digit(gpu_layers as nat);
    lemma_not_device_flag(dec(port as nat));
    lemma_not_device_flag(dec(parallel_size as nat));
    lemma_not_device_flag(dec(ctx_size as nat));
    lemma_not_device_flag(dec(batch_size as nat));
    lemma_not_device_flag(dec(gpu_layers as nat));
    assert(args + device_args(sel.1) =~= args);
    assert forall|i: int| 0 <= i < args.len() implies args[i] != "--device"@ by {
        if args[i] == "--device"@ {
            assert(args[i].len() == 8);
        }
    }
}

/// One item of a model listing, as far as it is read: its `id`, `name` and
/// `model` fields where they are text (`None` when absent or not text),
/// and its `aliases` field where it is an array (`None` otherwise), each
/// element kept where it is text.
#[derive(Clone, Debug)]
pub struct ListedItem {
    pub id: Option<String>,
    pub name: Option<String>,
    pub model: Option<String>,
    pub aliases: Option<Vec<Option<String>>>,
}

/// What a field of a model listing holds: an array of items, one object,
/// or anything else.
#[derive(Clone, Debug)]
pub enum ListingValue {
    List(Vec<ListedItem>),
    Single(ListedItem),
    Other,
}

/// The body of a model listing, by its `data` and `models` fields (`None`
/// where the field is absent, or the body is no object).
#[derive(Clone, Debug)]
pub struct ModelListing {
    pub data: Option<ListingValue>,
    pub models: Option<ListingValue>,
}

/// The items a listing field holds: those of an array, the one object, or
/// none.
pub open spec fn value_items(v: ListingValue) -> Seq<ListedItem> {
    match v {
        ListingValue::List(items) => items@,
        ListingValue::Single(item) => seq![item],
        ListingValue::Other => Seq::empty(),
    }
}

/// The items a listing describes: those of its `data` field when it has
/// one, else of its `models` field, else none.
pub open spec fn listing_items(l: ModelListing) -> Seq<ListedItem> {
    match l.data {
        Some(v) => value_items(v),
        None => match l.models {
            Some(v) => value_items(v),
            None => Seq::empty(),
        },
    }
}

/// A text field, empty when it is missing.
pub open spec fn text_or_empty(o: Option<String>) -> Seq<char> {
    match o {
        Some(s) => s@,
        None => Seq::empty(),
    }
}

/// The text elements of an array, in order.
pub open spec fn text_elements(s: Seq<Option<String>>) -> Seq<Seq<char>>
    decreases s.len(),
{
    if s.len() == 0 {
        Seq::empty()
    } else {
        match s.last() {
            Some(t) => text_elements(s.drop_last()).push(t@),
            None => text_elements(s.drop_last()),
        }
    }
}

/// The model entry read from a listed item.
pub open spec fn entry_of_item(e: ModelEntry, item: ListedItem) -> bool {
    &&& e.id@ == text_or_empty(item.id)
    &&& e.name@ == text_or_empty(item.name)
    &&& e.model@ == text_or_empty(item.model)
    &&& string_views(e.aliases@) == match item.aliases {
        Some(a) => text_elements(a@),
        None => Seq::empty(),
    }
}

fn text_field(o: &Option<String>) -> (s: String)
    ensures
        s@ == text_or_empty(*o),
{
    match o {
        Some(t) => t.clone(),
        None => String::new(),
    }
}

/// The model entry of one listed item.
pub fn item_entry(item: &ListedItem) -> (e: ModelEntry)
    ensures
        entry_of_item(e, *item),
{
    let mut aliases: Vec<String> = Vec::new();
    match &item.aliases {
        Some(a) => {
            let mut i: usize = 0;
            proof {
                assert(a@.take(0) =~= Seq::<Option<String>>::empty());
            }
            while i < a.len()
                invariant
                    i <= a@.len(),
                    string_views(aliases@) == text_elements(a@.take(i as int)),
                decreases a.len() - i,
            {
                proof {
                    assert(a@.take(i + 1).drop_last() =~= a@.take(i as int));
                    assert(a@.take(i + 1).last() == a@[i as int]);
                }
                match &a[i] {
                    Some(t) => {
                        let ghost before = string_views(aliases@);
                        aliases.push(t.clone());
                        proof {
                            assert(string_views(aliases@) =~= before.push(t@));
                        }
                    },
                    None => {},
                }
                i += 1;
            }
            proof {
                assert(a@.take(a.len() as int) =~= a@);
            }
        },
        None => {
            proof {
                assert(string_views(aliases@) =~= Seq::<Seq<char>>::empty());
            }
        },
    }
    ModelEntry {
        id: text_field(&item.id),
        name: text_field(&item.name),
        model: text_field(&item.model),
        aliases,
    }
}

/// The model entries a listing body describes: one per item of its `data`
/// field when it has one, else of its `models` field (an array gives its
/// items, one object gives itself, anything else gives none).
pub fn listing_entries(listing: &ModelListing) -> (out: Vec<ModelEntry>)
    ensures
        out@.len() == listing_items(*listing).len(),
        forall|i: int| 0 <= i < out@.len() ==> entry_of_item(#[trigger] out@[i], listing_items(*listing)[i]),
{
    let value = match &listing.data {
        Some(v) => v,
        None => match &listing.models {
            Some(v) => v,
            None => {
                return Vec::new();
            },
        },
    };
    let mut out: Vec<ModelEntry> = Vec::new();
    match value {
        ListingValue::List(items) => {
            let mut i: usize = 0;
            while i < items.len()
                invariant
                    i <= items@.len(),
                    items@ == listing_items(*listing),
                    out@.len() == i,
                    forall|k: int| 0 <= k < i ==> entry_of_item(#[trigger] out@[k], items@[k]),
                decreases items.len() - i,
            {
                let e = item_entry(&items[i]);
                out.push(e);
                i += 1;
            }
        },
        ListingValue::Single(item) => {
            out.push(item_entry(item));
        },
        ListingValue::Other => {},
    }
    out
}

} // verus!
