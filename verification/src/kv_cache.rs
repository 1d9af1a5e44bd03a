//! KV-cache types, and which backend can run flash attention over them.
//!
//! llama.cpp accepts more types for the cache than every backend has a kernel for,
//! and the gaps are silent: attention moves to the CPU, or flash attention goes
//! off. [`warning`] says so before a preset is launched.
use vstd::prelude::*;
use vstd::string::*;
use crate::devices::DeviceOption;
use crate::presets::literals;
use crate::text::{
    has_prefix, join, join_strs, pieces, split, split_on, starts_with, str_eq, strs, to_chars, trim,
    trimmed,
};

verus! {

/// The types that llama.cpp accepts for the cache, the most precise first.
pub open spec fn accepted() -> Seq<Seq<char>> {
    seq![
        "f32"@,
        "f16"@,
        "bf16"@,
        "q8_0"@,
        "q5_1"@,
        "q5_0"@,
        "q4_1"@,
        "q4_0"@,
        "iq4_nl"@,
    ]
}

/// The types that llama.cpp accepts for the cache.
pub fn types() -> (r: Vec<&'static str>)
    ensures
        literals(r@) == accepted(),
{
    let r: Vec<&'static str> = vec![
        "f32",
        "f16",
        "bf16",
        "q8_0",
        "q5_1",
        "q5_0",
        "q4_1",
        "q4_0",
        "iq4_nl",
    ];
    assert(literals(r@) =~= accepted());
    r
}

/// The types that have a vector kernel on CUDA and ROCm where K and V are equal.
pub open spec fn native() -> Seq<Seq<char>> {
    seq!["q4_0"@, "q8_0"@, "q5_0"@, "q5_1"@, "bf16"@, "f16"@]
}

/// The types that have a vector kernel on CUDA and ROCm where K and V are equal.
pub fn native_types() -> (r: Vec<&'static str>)
    ensures
        literals(r@) == native(),
{
    let r: Vec<&'static str> = vec!["q4_0", "q8_0", "q5_0", "q5_1", "bf16", "f16"];
    assert(literals(r@) =~= native());
    r
}

/// A family of flash-attention kernels.
#[derive(Debug, Clone, Copy, PartialEq, Eq, Structural)]
pub enum Backend {
    /// CUDA and HIP (ROCm), which share one.
    CudaHip,
    Vulkan,
}

/// The type that a choice stands for: none chosen is llama.cpp's own, f16.
pub open spec fn effective_type(t: Seq<char>) -> Seq<char> {
    if t.len() == 0 || t == "default"@ {
        "f16"@
    } else {
        t
    }
}

fn effective(t: &str) -> (r: &str)
    ensures
        r@ == effective_type(t@),
{
    if t.is_empty() || str_eq(t, "default") {
        "f16"
    } else {
        t
    }
}

pub open spec fn quantized(t: Seq<char>) -> bool {
    t != "f32"@ && t != "f16"@ && t != "bf16"@
}

fn is_quantized(t: &str) -> (r: bool)
    ensures
        r == quantized(t@),
{
    !str_eq(t, "f32") && !str_eq(t, "f16") && !str_eq(t, "bf16")
}

/// The kernels that a device runs, by its id.
pub open spec fn backend_named(id: Seq<char>) -> Option<Backend> {
    let t = trim(id);
    if starts_with(t, "CUDA"@) || starts_with(t, "ROCm"@) {
        Some(Backend::CudaHip)
    } else if starts_with(t, "Vulkan"@) {
        Some(Backend::Vulkan)
    } else {
        None
    }
}

fn backend_of(id: &[char]) -> (r: Option<Backend>)
    ensures
        r == backend_named(id@),
{
    let t = trimmed(id);
    if has_prefix(t, "CUDA") || has_prefix(t, "ROCm") {
        Some(Backend::CudaHip)
    } else if has_prefix(t, "Vulkan") {
        Some(Backend::Vulkan)
    } else {
        None
    }
}

/// Whether CUDA and ROCm have a kernel for a type.
pub open spec fn cuda_kernel(t: Seq<char>) -> bool {
    ||| t == "f32"@
    ||| t == "f16"@
    ||| t == "bf16"@
    ||| t == "q4_0"@
    ||| t == "q4_1"@
    ||| t == "q5_0"@
    ||| t == "q5_1"@
    ||| t == "q8_0"@
}

fn has_cuda_kernel(t: &str) -> (r: bool)
    ensures
        r == cuda_kernel(t@),
{
    str_eq(t, "f32") || str_eq(t, "f16") || str_eq(t, "bf16") || str_eq(t, "q4_0") || str_eq(t, "q4_1")
        || str_eq(t, "q5_0") || str_eq(t, "q5_1") || str_eq(t, "q8_0")
}

/// Whether a backend has any kernel for a K and a V. Vulkan takes bf16 on both or
/// on neither.
pub open spec fn kernel(b: Backend, k: Seq<char>, v: Seq<char>) -> bool {
    match b {
        Backend::CudaHip => cuda_kernel(k) && cuda_kernel(v),
        Backend::Vulkan => {
            &&& cuda_kernel(k) || k == "iq4_nl"@
            &&& cuda_kernel(v) || v == "iq4_nl"@
            &&& (k == "bf16"@) == (v == "bf16"@)
        },
    }
}

fn has_fa_kernel(b: Backend, k: &str, v: &str) -> (r: bool)
    ensures
        r == kernel(b, k@, v@),
{
    match b {
        Backend::CudaHip => has_cuda_kernel(k) && has_cuda_kernel(v),
        Backend::Vulkan => {
            (has_cuda_kernel(k) || str_eq(k, "iq4_nl")) && (has_cuda_kernel(v) || str_eq(v, "iq4_nl"))
                && str_eq(k, "bf16") == str_eq(v, "bf16")
        },
    }
}

/// Whether CUDA and ROCm have a vector kernel for a K and a V.
pub open spec fn vector_kernel(k: Seq<char>, v: Seq<char>) -> bool {
    k == v && native().contains(k)
}

fn lists(list: &Vec<&'static str>, t: &str) -> (r: bool)
    ensures
        r == literals(list@).contains(t@),
{
    let mut i: usize = 0;
    while i < list.len()
        invariant
            i <= list.len(),
            forall|k: int| 0 <= k < i ==> (#[trigger] literals(list@)[k]) != t@,
        decreases list.len() - i,
    {
        assert(literals(list@)[i as int] == list@[i as int]@);
        if str_eq(list[i], t) {
            return true;
        }
        i += 1;
    }
    assert(literals(list@).len() == list@.len());
    false
}

fn has_native_vec_kernel(k: &str, v: &str) -> (r: bool)
    ensures
        r == vector_kernel(k@, v@),
{
    str_eq(k, v) && lists(&native_types(), k)
}

/// What the warning looks at.
pub struct Input<'a> {
    /// The devices of the preset, with commas between them; empty pins none.
    pub device: &'a str,
    /// The devices of the server, which go before every preset's.
    pub server_device: &'a str,
    /// What the probe found: every device, where none is pinned.
    pub probed: &'a [DeviceOption],
    pub cache_type_k: &'a str,
    pub cache_type_v: &'a str,
    /// Empty, `default`, `on` or `off`.
    pub flash_attn: &'a str,
    /// The types of the draft's cache, where there is a draft.
    pub draft: Option<(&'a str, &'a str)>,
}

/// The devices that a model will run on: the server's, else the preset's, else
/// every one that was probed.
pub open spec fn device_ids(input: Input<'_>) -> Seq<Seq<char>> {
    let pinned = if trim(input.server_device@).len() > 0 {
        input.server_device@
    } else {
        input.device@
    };
    if trim(pinned).len() == 0 {
        input.probed@.map_values(|d: DeviceOption| d.id@)
    } else {
        split(pinned, ',')
    }
}

/// Whether one of some devices runs a family of kernels.
pub open spec fn runs(ids: Seq<Seq<char>>, b: Backend) -> bool {
    exists|i: int| 0 <= i < ids.len() && backend_named(#[trigger] ids[i]) == Some(b)
}

fn runs_among(ids: &Vec<&[char]>, b: Backend) -> (r: bool)
    ensures
        r == runs(pieces(ids@), b),
{
    let mut i: usize = 0;
    while i < ids.len()
        invariant
            i <= ids.len(),
            forall|k: int| 0 <= k < i ==> backend_named(#[trigger] pieces(ids@)[k]) != Some(b),
        decreases ids.len() - i,
    {
        assert(pieces(ids@)[i as int] == ids@[i as int]@);
        if let Some(x) = backend_of(ids[i]) {
            if x == b {
                return true;
            }
        }
        i += 1;
    }
    assert(pieces(ids@).len() == ids@.len());
    false
}

fn runs_among_probed(ds: &[DeviceOption], b: Backend) -> (r: bool)
    ensures
        r == runs(ds@.map_values(|d: DeviceOption| d.id@), b),
{
    let ghost ids = ds@.map_values(|d: DeviceOption| d.id@);
    let mut i: usize = 0;
    while i < ds.len()
        invariant
            i <= ds.len(),
            ids == ds@.map_values(|d: DeviceOption| d.id@),
            forall|k: int| 0 <= k < i ==> backend_named(#[trigger] ids[k]) != Some(b),
        decreases ds.len() - i,
    {
        assert(ids[i as int] == ds@[i as int].id@);
        let c = to_chars(ds[i].id.as_str());
        if let Some(x) = backend_of(c.as_slice()) {
            if x == b {
                return true;
            }
        }
        i += 1;
    }
    false
}

fn runs_on(input: &Input<'_>, b: Backend) -> (r: bool)
    ensures
        r == runs(device_ids(*input), b),
{
    let server = to_chars(input.server_device);
    let preset = to_chars(input.device);
    let pinned = if trimmed(server.as_slice()).len() > 0 {
        server.as_slice()
    } else {
        preset.as_slice()
    };
    if trimmed(pinned).len() == 0 {
        runs_among_probed(input.probed, b)
    } else {
        let ids = split_on(pinned, ',');
        runs_among(&ids, b)
    }
}

/// What becomes of attention that has no kernel: forced, it moves to the CPU; left
/// to llama.cpp, it goes off.
pub open spec fn fallback_text(forced: bool) -> Seq<char> {
    if forced {
        "flash attention is on (a quantized V cache forces it), so llama.cpp runs this model's attention on the CPU"@
    } else {
        "with flash attention on default, llama.cpp detects it and runs this model without flash attention"@
    }
}

fn fallback(forced: bool) -> (r: &'static str)
    ensures
        r@ == fallback_text(forced),
{
    if forced {
        "flash attention is on (a quantized V cache forces it), so llama.cpp runs this model's attention on the CPU"
    } else {
        "with flash attention on default, llama.cpp detects it and runs this model without flash attention"
    }
}

pub open spec fn refused_text(label: Seq<char>, bad: Seq<char>) -> Seq<char> {
    label + ": "@ + bad + " is not a KV cache type llama.cpp accepts ("@ + join(accepted(), ", "@)
        + "), so the model does not load."@
}

pub open spec fn quantized_text(label: Seq<char>, v: Seq<char>) -> Seq<char> {
    label + ": a quantized V cache ("@ + v
        + ") requires flash attention, and Flash Attention is off: llama.cpp refuses to create the context and the model does not load."@
}

pub open spec fn cuda_text(label: Seq<char>, k: Seq<char>, v: Seq<char>, forced: bool) -> Seq<char> {
    label + ": CUDA and ROCm have no FlashAttention kernel for K "@ + k + " / V "@ + v + ", and "@
        + fallback_text(forced)
        + ". Use q4_0 or q5_0 on those cards; Vulkan does have an iq4_nl kernel."@
}

pub open spec fn vulkan_text(label: Seq<char>, k: Seq<char>, v: Seq<char>, forced: bool) -> Seq<char> {
    label + ": Vulkan's FlashAttention needs bf16 on both K and V or on neither (K "@ + k + " / V "@ + v
        + "), and "@ + fallback_text(forced) + "."@
}

pub open spec fn slow_text(label: Seq<char>, k: Seq<char>, v: Seq<char>) -> Seq<char> {
    label + ": this build has no native FlashAttention decode kernel for K "@ + k + " / V "@ + v
        + " on CUDA and ROCm, so every decode step of 1-2 tokens converts the whole used cache to f16 first (slower decode). Native pairs, K and V equal: f16, bf16, q8_0, q5_1, q5_0, q4_0."@
}

/// The most serious problem of one cache, or none where it is fine.
pub open spec fn problem(
    label: Seq<char>,
    cuda: bool,
    vulkan: bool,
    k_choice: Seq<char>,
    v_choice: Seq<char>,
    flash_attn: Seq<char>,
) -> Option<Seq<char>> {
    let k = effective_type(k_choice);
    let v = effective_type(v_choice);
    let forced = flash_attn == "on"@ || quantized(v);
    if !accepted().contains(k) {
        Some(refused_text(label, k))
    } else if !accepted().contains(v) {
        Some(refused_text(label, v))
    } else if flash_attn == "off"@ {
        if quantized(v) {
            Some(quantized_text(label, v))
        } else {
            None
        }
    } else if cuda && !kernel(Backend::CudaHip, k, v) {
        Some(cuda_text(label, k, v, forced))
    } else if vulkan && !kernel(Backend::Vulkan, k, v) {
        Some(vulkan_text(label, k, v, forced))
    } else if cuda && !vector_kernel(k, v) {
        Some(slow_text(label, k, v))
    } else {
        None
    }
}

fn refused(label: &str, bad: &str) -> (r: String)
    ensures
        r@ == refused_text(label@, bad@),
{
    let all = types();
    let mut names: Vec<String> = Vec::new();
    let mut i: usize = 0;
    while i < all.len()
        invariant
            i <= all.len(),
            names@.len() == i,
            forall|k: int| 0 <= k < i ==> (#[trigger] names@[k])@ == all@[k]@,
        decreases all.len() - i,
    {
        names.push(all[i].to_owned());
        i += 1;
    }
    assert(strs(names@) =~= literals(all@));
    let list = join_strs(&names, ", ");
    let mut out: String = label.to_owned();
    out.append(": ");
    out.append(bad);
    out.append(" is not a KV cache type llama.cpp accepts (");
    out.append(list.as_str());
    out.append("), so the model does not load.");
    out
}

/// The most serious problem of one cache.
pub fn check(label: &str, cuda: bool, vulkan: bool, k_choice: &str, v_choice: &str, flash_attn: &str) -> (r: Option<
    String,
>)
    ensures
        match r {
            Some(w) => problem(label@, cuda, vulkan, k_choice@, v_choice@, flash_attn@) == Some(w@),
            None => problem(label@, cuda, vulkan, k_choice@, v_choice@, flash_attn@) is None,
        },
{
    let k = effective(k_choice);
    let v = effective(v_choice);
    let all = types();
    if !lists(&all, k) {
        return Some(refused(label, k));
    }
    if !lists(&all, v) {
        return Some(refused(label, v));
    }
    if str_eq(flash_attn, "off") {
        if !is_quantized(v) {
            return None;
        }
        let mut out: String = label.to_owned();
        out.append(": a quantized V cache (");
        out.append(v);
        out.append(
            ") requires flash attention, and Flash Attention is off: llama.cpp refuses to create the context and the model does not load.",
        );
        return Some(out);
    }
    let forced: bool = str_eq(flash_attn, "on") || is_quantized(v);
    if cuda && !has_fa_kernel(Backend::CudaHip, k, v) {
        let mut out: String = label.to_owned();
        out.append(": CUDA and ROCm have no FlashAttention kernel for K ");
        out.append(k);
        out.append(" / V ");
        out.append(v);
        out.append(", and ");
        out.append(fallback(forced));
        out.append(". Use q4_0 or q5_0 on those cards; Vulkan does have an iq4_nl kernel.");
        return Some(out);
    }
    if vulkan && !has_fa_kernel(Backend::Vulkan, k, v) {
        let mut out: String = label.to_owned();
        out.append(": Vulkan's FlashAttention needs bf16 on both K and V or on neither (K ");
        out.append(k);
        out.append(" / V ");
        out.append(v);
        out.append("), and ");
        out.append(fallback(forced));
        out.append(".");
        return Some(out);
    }
    if cuda && !has_native_vec_kernel(k, v) {
        let mut out: String = label.to_owned();
        out.append(": this build has no native FlashAttention decode kernel for K ");
        out.append(k);
        out.append(" / V ");
        out.append(v);
        out.append(
            " on CUDA and ROCm, so every decode step of 1-2 tokens converts the whole used cache to f16 first (slower decode). Native pairs, K and V equal: f16, bf16, q8_0, q5_1, q5_0, q4_0.",
        );
        return Some(out);
    }
    None
}

pub open spec fn some_line(o: Option<Seq<char>>) -> Seq<Seq<char>> {
    match o {
        Some(s) => seq![s],
        None => Seq::empty(),
    }
}

/// The lines of the warning: the model's cache, then the draft's.
pub open spec fn warning_lines(input: Input<'_>) -> Seq<Seq<char>> {
    let ids = device_ids(input);
    let cuda = runs(ids, Backend::CudaHip);
    let vulkan = runs(ids, Backend::Vulkan);
    some_line(
        problem(
            "KV cache"@,
            cuda,
            vulkan,
            input.cache_type_k@,
            input.cache_type_v@,
            input.flash_attn@,
        ),
    ) + match input.draft {
        Some((k, v)) => some_line(
            problem("Draft KV cache"@, cuda, vulkan, k@, v@, input.flash_attn@),
        ),
        None => Seq::empty(),
    }
}

/// The warning about the caches of a preset; empty where each has a kernel where it
/// runs.
pub fn warning(input: &Input<'_>) -> (r: String)
    ensures
        r@ == join(warning_lines(*input), "\n"@),
{
    let cuda: bool = runs_on(input, Backend::CudaHip);
    let vulkan: bool = runs_on(input, Backend::Vulkan);
    let mut lines: Vec<String> = Vec::new();
    if let Some(w) = check(
        "KV cache",
        cuda,
        vulkan,
        input.cache_type_k,
        input.cache_type_v,
        input.flash_attn,
    ) {
        lines.push(w);
    }
    let ghost first = strs(lines@);
    assert(first =~= some_line(
        problem(
            "KV cache"@,
            cuda,
            vulkan,
            input.cache_type_k@,
            input.cache_type_v@,
            input.flash_attn@,
        ),
    ));
    match input.draft {
        Some((dk, dv)) => {
            if let Some(w) = check("Draft KV cache", cuda, vulkan, dk, dv, input.flash_attn) {
                let ghost text = w@;
                lines.push(w);
                assert(strs(lines@) =~= first + seq![text]);
            }
        },
        None => {},
    }
    assert(strs(lines@) =~= warning_lines(*input));
    join_strs(&lines, "\n")
}

/// A pair of equal types with a vector kernel is fine on every backend, unless
/// flash attention is off.
pub proof fn law_native_pairs_are_silent(
    label: Seq<char>,
    cuda: bool,
    vulkan: bool,
    t: Seq<char>,
    flash_attn: Seq<char>,
)
    requires
        native().contains(t),
        flash_attn != "off"@,
    ensures
        problem(label, cuda, vulkan, t, t, flash_attn) is None,
{
    reveal_strlit("default");
    reveal_strlit("q4_0");
    reveal_strlit("q8_0");
    reveal_strlit("q5_0");
    reveal_strlit("q5_1");
    reveal_strlit("bf16");
    reveal_strlit("f16");
    let i = choose|i: int| 0 <= i < native().len() && native()[i] == t;
    assert(native()[i] == t);
    assert("default"@.len() == 7);
    assert(t != "default"@);
    assert(accepted()[1] == "f16"@ && accepted()[2] == "bf16"@ && accepted()[3] == "q8_0"@ && accepted()[4]
        == "q5_1"@ && accepted()[5] == "q5_0"@ && accepted()[7] == "q4_0"@);
    assert(accepted().contains(t));
}

/// With flash attention off only one thing can be wrong with types that llama.cpp
/// accepts: a quantized V.
pub proof fn law_off_needs_no_kernel(
    label: Seq<char>,
    cuda: bool,
    vulkan: bool,
    k: Seq<char>,
    v: Seq<char>,
)
    requires
        accepted().contains(effective_type(k)),
        accepted().contains(effective_type(v)),
    ensures
        (problem(label, cuda, vulkan, k, v, "off"@) is None) == !quantized(effective_type(v)),
{
}

/// The letters of the types, so that one is told from another.
proof fn lemma_types_differ()
    ensures
        "f32"@ == seq!['f', '3', '2'],
        "f16"@ == seq!['f', '1', '6'],
        "bf16"@ == seq!['b', 'f', '1', '6'],
        "q8_0"@ == seq!['q', '8', '_', '0'],
        "q5_1"@ == seq!['q', '5', '_', '1'],
        "q5_0"@ == seq!['q', '5', '_', '0'],
        "q4_1"@ == seq!['q', '4', '_', '1'],
        "q4_0"@ == seq!['q', '4', '_', '0'],
        "iq4_nl"@ == seq!['i', 'q', '4', '_', 'n', 'l'],
        "default"@.len() == 7,
        "off"@ == seq!['o', 'f', 'f'],
        "on"@ == seq!['o', 'n'],
{
    reveal_strlit("f32");
    reveal_strlit("f16");
    reveal_strlit("bf16");
    reveal_strlit("q8_0");
    reveal_strlit("q5_1");
    reveal_strlit("q5_0");
    reveal_strlit("q4_1");
    reveal_strlit("q4_0");
    reveal_strlit("iq4_nl");
    reveal_strlit("default");
    reveal_strlit("off");
    reveal_strlit("on");
    assert("f32"@ =~= seq!['f', '3', '2']);
    assert("f16"@ =~= seq!['f', '1', '6']);
    assert("bf16"@ =~= seq!['b', 'f', '1', '6']);
    assert("q8_0"@ =~= seq!['q', '8', '_', '0']);
    assert("q5_1"@ =~= seq!['q', '5', '_', '1']);
    assert("q5_0"@ =~= seq!['q', '5', '_', '0']);
    assert("q4_1"@ =~= seq!['q', '4', '_', '1']);
    assert("q4_0"@ =~= seq!['q', '4', '_', '0']);
    assert("iq4_nl"@ =~= seq!['i', 'q', '4', '_', 'n', 'l']);
    assert("off"@ =~= seq!['o', 'f', 'f']);
    assert("on"@ =~= seq!['o', 'n']);
}

/// Whether a text is a full-precision type of the cache.
pub open spec fn is_float_type(t: Seq<char>) -> bool {
    t == "f32"@ || t == "f16"@ || t == "bf16"@
}

/// Whether a text is a type that llama.cpp takes for the cache.
pub open spec fn is_cache_type(t: Seq<char>) -> bool {
    ||| is_float_type(t)
    ||| t == "q8_0"@
    ||| t == "q5_1"@
    ||| t == "q5_0"@
    ||| t == "q4_1"@
    ||| t == "q4_0"@
    ||| t == "iq4_nl"@
}

proof fn lemma_accepted(t: Seq<char>)
    ensures
        accepted().contains(t) == is_cache_type(t),
        native().contains(t) == (t == "f16"@ || t == "bf16"@ || t == "q8_0"@ || t == "q5_1"@ || t
            == "q5_0"@ || t == "q4_0"@),
{
    let a = accepted();
    assert(a[0] == "f32"@ && a[1] == "f16"@ && a[2] == "bf16"@ && a[3] == "q8_0"@ && a[4] == "q5_1"@
        && a[5] == "q5_0"@ && a[6] == "q4_1"@ && a[7] == "q4_0"@ && a[8] == "iq4_nl"@);
    let n = native();
    assert(n[0] == "q4_0"@ && n[1] == "q8_0"@ && n[2] == "q5_0"@ && n[3] == "q5_1"@ && n[4] == "bf16"@
        && n[5] == "f16"@);
}

/// Where CUDA or ROCm runs the model with flash attention, two accepted types pass
/// without a word only where they are the same and that one is f16, bf16, q8_0, q5_1,
/// q5_0 or q4_0.
pub proof fn law_cuda_wants_equal_native_types(
    label: Seq<char>,
    vulkan: bool,
    k: Seq<char>,
    v: Seq<char>,
    flash_attn: Seq<char>,
)
    requires
        is_cache_type(k),
        is_cache_type(v),
        flash_attn != "off"@,
    ensures
        problem(label, true, vulkan, k, v, flash_attn) is None <==> k == v && k != "f32"@ && k
            != "q4_1"@ && k != "iq4_nl"@,
{
    lemma_types_differ();
    lemma_accepted(k);
    lemma_accepted(v);
}

/// Where only Vulkan runs the model with flash attention, two accepted types pass
/// unless one of them alone is bf16.
pub proof fn law_vulkan_wants_bf16_twice_or_never(
    label: Seq<char>,
    k: Seq<char>,
    v: Seq<char>,
    flash_attn: Seq<char>,
)
    requires
        is_cache_type(k),
        is_cache_type(v),
        flash_attn != "off"@,
    ensures
        problem(label, false, true, k, v, flash_attn) is None <==> (k == "bf16"@ <==> v == "bf16"@),
        problem(label, false, false, k, v, flash_attn) is None,
{
    lemma_types_differ();
    lemma_accepted(k);
    lemma_accepted(v);
}

/// Without flash attention two accepted types pass wherever V is a full-precision one,
/// on every device.
pub proof fn law_off_wants_a_float_v(
    label: Seq<char>,
    cuda: bool,
    vulkan: bool,
    k: Seq<char>,
    v: Seq<char>,
)
    requires
        is_cache_type(k),
        is_cache_type(v),
    ensures
        problem(label, cuda, vulkan, k, v, "off"@) is None <==> is_float_type(v),
{
    lemma_types_differ();
    lemma_accepted(k);
    lemma_accepted(v);
}

/// No choice and the choice `default` mean f16, for either half of the cache.
pub proof fn law_no_choice_is_f16(
    label: Seq<char>,
    cuda: bool,
    vulkan: bool,
    t: Seq<char>,
    flash_attn: Seq<char>,
)
    ensures
        problem(label, cuda, vulkan, Seq::empty(), t, flash_attn) == problem(
            label,
            cuda,
            vulkan,
            "f16"@,
            t,
            flash_attn,
        ),
        problem(label, cuda, vulkan, "default"@, t, flash_attn) == problem(
            label,
            cuda,
            vulkan,
            "f16"@,
            t,
            flash_attn,
        ),
        problem(label, cuda, vulkan, t, Seq::empty(), flash_attn) == problem(
            label,
            cuda,
            vulkan,
            t,
            "f16"@,
            flash_attn,
        ),
        problem(label, cuda, vulkan, t, "default"@, flash_attn) == problem(
            label,
            cuda,
            vulkan,
            t,
            "f16"@,
            flash_attn,
        ),
{
    lemma_types_differ();
}

/// A type that llama.cpp does not take is a problem everywhere, and the text names it.
pub proof fn law_unknown_types_are_refused(
    label: Seq<char>,
    cuda: bool,
    vulkan: bool,
    k: Seq<char>,
    v: Seq<char>,
    flash_attn: Seq<char>,
)
    requires
        k.len() > 0 && k != "default"@ && !is_cache_type(k),
    ensures
        problem(label, cuda, vulkan, k, v, flash_attn) matches Some(w) && w.take(
            (label.len() + 2 + k.len()) as int,
        ) == label + ": "@ + k,
        is_cache_type(v) ==> (problem(label, cuda, vulkan, v, k, flash_attn) matches Some(w) && w.take(
            (label.len() + 2 + k.len()) as int,
        ) == label + ": "@ + k),
{
    lemma_types_differ();
    lemma_accepted(k);
    lemma_accepted(v);
    reveal_strlit(": ");
    let w = refused_text(label, k);
    assert(w.take((label.len() + 2 + k.len()) as int) =~= label + ": "@ + k);
}

/// The worse comes first: what keeps a model from loading, then what has no kernel at
/// all, then what is slow. A pair without any kernel is told what becomes of it: where
/// flash attention was asked for, or V is quantized, attention runs on the CPU.
pub proof fn law_worst_problem_is_told(
    label: Seq<char>,
    vulkan: bool,
    k: Seq<char>,
    v: Seq<char>,
    flash_attn: Seq<char>,
)
    requires
        is_cache_type(k),
        is_cache_type(v),
        flash_attn != "off"@,
    ensures
        k == "iq4_nl"@ || v == "iq4_nl"@ ==> problem(label, true, vulkan, k, v, flash_attn) == Some(
            cuda_text(label, k, v, flash_attn == "on"@ || !is_float_type(v)),
        ),
        k != "iq4_nl"@ && v != "iq4_nl"@ && vulkan && (k == "bf16"@) != (v == "bf16"@) ==> problem(
            label,
            true,
            vulkan,
            k,
            v,
            flash_attn,
        ) == Some(vulkan_text(label, k, v, flash_attn == "on"@ || !is_float_type(v))),
        k != "iq4_nl"@ && v != "iq4_nl"@ && !vulkan && k != v ==> problem(
            label,
            true,
            vulkan,
            k,
            v,
            flash_attn,
        ) == Some(slow_text(label, k, v)),
{
    lemma_types_differ();
    lemma_accepted(k);
    lemma_accepted(v);
}

/// A device runs the kernels that its id begins with, blanks around it aside.
pub proof fn law_ids_tell_the_backend(id: Seq<char>)
    requires
        trim(id) == id,
    ensures
        id.len() >= 4 && (id.take(4) == "CUDA"@ || id.take(4) == "ROCm"@) <==> backend_named(id)
            == Some(Backend::CudaHip),
        id.len() >= 6 && id.take(6) == "Vulkan"@ <==> backend_named(id) == Some(Backend::Vulkan),
{
    reveal_strlit("CUDA");
    reveal_strlit("ROCm");
    reveal_strlit("Vulkan");
    if id.len() >= 6 && id.take(6) == "Vulkan"@ {
        assert(id[0] == id.take(6)[0]);
    }
    if id.len() >= 4 {
        assert(id.take(4)[0] == id[0]);
    }
}

/// The devices that count are the server's where it names any, whatever the preset
/// says; else the preset's; else all that were found.
pub proof fn law_server_devices_go_first(input: Input<'_>)
    ensures
        trim(input.server_device@).len() > 0 ==> device_ids(input) == split(input.server_device@, ','),
        trim(input.server_device@).len() == 0 && trim(input.device@).len() > 0 ==> device_ids(input)
            == split(input.device@, ','),
        trim(input.server_device@).len() == 0 && trim(input.device@).len() == 0 ==> {
            &&& device_ids(input).len() == input.probed@.len()
            &&& forall|i: int|
                0 <= i < input.probed@.len() ==> #[trigger] device_ids(input)[i] == input.probed@[i].id@
        },
{
}

/// There is a warning exactly where one of the two caches has a problem on the devices
/// that run it, and each problem is told under its own name.
pub proof fn law_warning_tells_both_caches(input: Input<'_>, cuda: bool, vulkan: bool)
    requires
        cuda == exists|i: int|
            0 <= i < device_ids(input).len() && backend_named(#[trigger] device_ids(input)[i]) == Some(
                Backend::CudaHip,
            ),
        vulkan == exists|i: int|
            0 <= i < device_ids(input).len() && backend_named(#[trigger] device_ids(input)[i]) == Some(
                Backend::Vulkan,
            ),
    ensures
        problem(
            "KV cache"@,
            cuda,
            vulkan,
            input.cache_type_k@,
            input.cache_type_v@,
            input.flash_attn@,
        ) matches Some(w) ==> warning_lines(input).len() > 0 && warning_lines(input)[0] == w,
        input.draft matches Some((k, v)) ==> problem(
            "Draft KV cache"@,
            cuda,
            vulkan,
            k@,
            v@,
            input.flash_attn@,
        ) matches Some(w) ==> warning_lines(input).len() > 0 && warning_lines(input).last() == w,
        input.draft is None && problem(
            "KV cache"@,
            cuda,
            vulkan,
            input.cache_type_k@,
            input.cache_type_v@,
            input.flash_attn@,
        ) is None ==> warning_lines(input).len() == 0,
        warning_lines(input).len() <= if input.draft is Some {
            2int
        } else {
            1int
        },
{
    let ids = device_ids(input);
    assert(cuda == runs(ids, Backend::CudaHip));
    assert(vulkan == runs(ids, Backend::Vulkan));
}

} // verus!
