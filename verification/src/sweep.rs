//! Parameter sweeps: one benchmark leg for each value of one preset key.
//!
//! A sweep says what to vary ([`setter`]) and over which values
//! ([`parse_values`]), ranks the legs it measured ([`best`]) and sums them up
//! ([`render_summary`]). What it leaves on disk tells the next sweep whether it
//! was finished ([`sweep_state`]).
use vstd::prelude::*;
use vstd::slice::slice_subrange;
use vstd::string::*;
use crate::bench::{decimal_json, decimal_number, pairs, Measured, Mode, Plan};
use crate::ini::{has_marker, keys_of, marker_problem, read_section, reject_comment_markers};
use crate::json::{
    count_json, int_json, is_plain, is_record, is_scalar, json_compact, json_value,
    lemma_member_at_is, member, read_json, text_at, text_of, text_or_empty, texts_json,
    write_compact, Json, JsonView,
};
use crate::presets::{copied, literals, Preset};
use crate::report::{
    caveat_list, caveats, engine, engine_name, push_list, push_table, table_text, temperature,
    temperature_text, wrapped_lines,
};
use crate::results::{points_view, Point, PointView};
use crate::rounding::push_wide;
use crate::runs::{falling, insert_falling, stamp_in};
use crate::text::{
    contains, dec, dec_int, ends_with, entries, entries_of, find, from_chars, has_char, has_prefix,
    has_suffix, index_of, int_str, is_str, join, join_strs, lemma_find_char_is,
    lemma_trim_end_shape, lemma_trim_start_shape, lines, lines_of, list_has, lower_all, opt,
    parse_signed, pieces, push_chars, push_dec, push_int, read_int, starts_with, str_eq,
    str_eq_ignore_case, strip_cr, strs, to_chars, to_lower_all, trim, trim_start, trim_str, trimmed,
};

verus! {

/// The word that means "the key is not in the section".
pub const UNSET: &'static str = "unset";

// ── What may be swept ────────────────────────────────────────────────────

/// A preset key that a sweep may vary.
#[derive(Clone, Copy, PartialEq, Eq, Debug)]
pub enum SweepKey {
    SpecDraftNMax,
    SpecType,
    ModelDraft,
    DeviceDraft,
    NGpuLayersDraft,
    SpecDraftTypeK,
    SpecDraftTypeV,
    Device,
    TensorSplit,
    SplitMode,
    OverrideTensor,
    NGpuLayers,
    NCpuMoe,
    CtxSize,
    BatchSize,
    UbatchSize,
    Parallel,
    CacheRam,
    CacheTypeK,
    CacheTypeV,
    FlashAttn,
    MmprojOffload,
}

impl SweepKey {
    /// The key as it stands in the INI.
    pub open spec fn word(self) -> Seq<char> {
        match self {
            SweepKey::SpecDraftNMax => "spec-draft-n-max"@,
            SweepKey::SpecType => "spec-type"@,
            SweepKey::ModelDraft => "model-draft"@,
            SweepKey::DeviceDraft => "device-draft"@,
            SweepKey::NGpuLayersDraft => "n-gpu-layers-draft"@,
            SweepKey::SpecDraftTypeK => "spec-draft-type-k"@,
            SweepKey::SpecDraftTypeV => "spec-draft-type-v"@,
            SweepKey::Device => "device"@,
            SweepKey::TensorSplit => "tensor-split"@,
            SweepKey::SplitMode => "split-mode"@,
            SweepKey::OverrideTensor => "override-tensor"@,
            SweepKey::NGpuLayers => "n-gpu-layers"@,
            SweepKey::NCpuMoe => "n-cpu-moe"@,
            SweepKey::CtxSize => "ctx-size"@,
            SweepKey::BatchSize => "batch-size"@,
            SweepKey::UbatchSize => "ubatch-size"@,
            SweepKey::Parallel => "parallel"@,
            SweepKey::CacheRam => "cache-ram"@,
            SweepKey::CacheTypeK => "cache-type-k"@,
            SweepKey::CacheTypeV => "cache-type-v"@,
            SweepKey::FlashAttn => "flash-attn"@,
            SweepKey::MmprojOffload => "mmproj-offload"@,
        }
    }

    /// The key as it stands in the INI.
    pub fn name(self) -> (r: &'static str)
        ensures
            r@ == self.word(),
    {
        match self {
            SweepKey::SpecDraftNMax => "spec-draft-n-max",
            SweepKey::SpecType => "spec-type",
            SweepKey::ModelDraft => "model-draft",
            SweepKey::DeviceDraft => "device-draft",
            SweepKey::NGpuLayersDraft => "n-gpu-layers-draft",
            SweepKey::SpecDraftTypeK => "spec-draft-type-k",
            SweepKey::SpecDraftTypeV => "spec-draft-type-v",
            SweepKey::Device => "device",
            SweepKey::TensorSplit => "tensor-split",
            SweepKey::SplitMode => "split-mode",
            SweepKey::OverrideTensor => "override-tensor",
            SweepKey::NGpuLayers => "n-gpu-layers",
            SweepKey::NCpuMoe => "n-cpu-moe",
            SweepKey::CtxSize => "ctx-size",
            SweepKey::BatchSize => "batch-size",
            SweepKey::UbatchSize => "ubatch-size",
            SweepKey::Parallel => "parallel",
            SweepKey::CacheRam => "cache-ram",
            SweepKey::CacheTypeK => "cache-type-k",
            SweepKey::CacheTypeV => "cache-type-v",
            SweepKey::FlashAttn => "flash-attn",
            SweepKey::MmprojOffload => "mmproj-offload",
        }
    }
}

/// The keys, in the order in which they are listed.
pub open spec fn sweepable() -> Seq<SweepKey> {
    seq![
        SweepKey::SpecDraftNMax,
        SweepKey::SpecType,
        SweepKey::ModelDraft,
        SweepKey::DeviceDraft,
        SweepKey::NGpuLayersDraft,
        SweepKey::SpecDraftTypeK,
        SweepKey::SpecDraftTypeV,
        SweepKey::Device,
        SweepKey::TensorSplit,
        SweepKey::SplitMode,
        SweepKey::OverrideTensor,
        SweepKey::NGpuLayers,
        SweepKey::NCpuMoe,
        SweepKey::CtxSize,
        SweepKey::BatchSize,
        SweepKey::UbatchSize,
        SweepKey::Parallel,
        SweepKey::CacheRam,
        SweepKey::CacheTypeK,
        SweepKey::CacheTypeV,
        SweepKey::FlashAttn,
        SweepKey::MmprojOffload,
    ]
}

/// The keys that a sweep may vary.
pub fn all_keys() -> (r: Vec<SweepKey>)
    ensures
        r@ == sweepable(),
{
    let r: Vec<SweepKey> = vec![
        SweepKey::SpecDraftNMax,
        SweepKey::SpecType,
        SweepKey::ModelDraft,
        SweepKey::DeviceDraft,
        SweepKey::NGpuLayersDraft,
        SweepKey::SpecDraftTypeK,
        SweepKey::SpecDraftTypeV,
        SweepKey::Device,
        SweepKey::TensorSplit,
        SweepKey::SplitMode,
        SweepKey::OverrideTensor,
        SweepKey::NGpuLayers,
        SweepKey::NCpuMoe,
        SweepKey::CtxSize,
        SweepKey::BatchSize,
        SweepKey::UbatchSize,
        SweepKey::Parallel,
        SweepKey::CacheRam,
        SweepKey::CacheTypeK,
        SweepKey::CacheTypeV,
        SweepKey::FlashAttn,
        SweepKey::MmprojOffload,
    ];
    assert(r@ =~= sweepable());
    r
}

pub open spec fn key_words() -> Seq<Seq<char>> {
    sweepable().map_values(|k: SweepKey| k.word())
}

/// The keys, with commas between them.
pub fn keys() -> (r: String)
    ensures
        r@ == join(key_words(), ", "@),
{
    let all = all_keys();
    let mut v: Vec<String> = Vec::new();
    let mut i: usize = 0;
    while i < all.len()
        invariant
            i <= all.len(),
            all@ == sweepable(),
            v@.len() == i,
            forall|k: int| 0 <= k < i ==> (#[trigger] v@[k])@ == all@[k].word(),
        decreases all.len() - i,
    {
        v.push(all[i].name().to_owned());
        i += 1;
    }
    assert(strs(v@) =~= key_words());
    join_strs(&v, ", ")
}

/// What a key is told that no sweep may vary.
pub open spec fn unknown_key_text(key: Seq<char>) -> Seq<char> {
    "`"@ + key + "` is not a sweepable preset key. Sweepable: "@ + join(key_words(), ", "@)
}

/// The key of a word, or an error that names every key there is.
pub fn setter(key: &str) -> (r: Result<SweepKey, String>)
    ensures
        match r {
            Ok(k) => k.word() == key@,
            Err(e) => !key_words().contains(key@) && e@ == unknown_key_text(key@),
        },
{
    let all = all_keys();
    let mut i: usize = 0;
    while i < all.len()
        invariant
            i <= all.len(),
            all@ == sweepable(),
            forall|k: int| 0 <= k < i ==> (#[trigger] key_words()[k]) != key@,
        decreases all.len() - i,
    {
        assert(key_words()[i as int] == all@[i as int].word());
        if str_eq(all[i].name(), key) {
            return Ok(all[i]);
        }
        i += 1;
    }
    assert(key_words().len() == all@.len());
    let mut e: String = "`".to_owned();
    e.append(key);
    e.append("` is not a sweepable preset key. Sweepable: ");
    let list = keys();
    e.append(list.as_str());
    Err(e)
}

// ── One value ────────────────────────────────────────────────────────────

/// Whether a value means "unset", in any case of its letters.
pub open spec fn means_unset(v: Seq<char>) -> bool {
    lower_all(v) == lower_all("unset"@)
}

/// A value as a number.
pub open spec fn number_value(v: Seq<char>) -> Result<Option<i32>, Seq<char>> {
    if means_unset(v) {
        Ok(None)
    } else {
        match parse_signed(v, i32::MIN as int, i32::MAX as int) {
            Some(n) => Ok(Some(n as i32)),
            None => Err("`"@ + v + "` is not a whole number (or `unset`)"@),
        }
    }
}

/// A value as a truth value.
pub open spec fn boolean_value(v: Seq<char>) -> Result<Option<bool>, Seq<char>> {
    let w = lower_all(v);
    if means_unset(v) {
        Ok(None)
    } else if w == "true"@ || w == "on"@ || w == "yes"@ || w == "1"@ {
        Ok(Some(true))
    } else if w == "false"@ || w == "off"@ || w == "no"@ || w == "0"@ {
        Ok(Some(false))
    } else {
        Err("`"@ + v + "` is not a boolean (true/false, or `unset`)"@)
    }
}

/// A value as text; one that the INI could not hold is refused.
pub open spec fn text_value(v: Seq<char>) -> Result<Seq<char>, Seq<char>> {
    if means_unset(v) {
        Ok(Seq::empty())
    } else if has_marker(v) {
        Err(marker_problem("value"@))
    } else {
        Ok(v)
    }
}

fn int_of_value(v: &str) -> (r: Result<Option<i32>, String>)
    ensures
        match r {
            Ok(n) => number_value(v@) == Ok::<Option<i32>, Seq<char>>(n),
            Err(e) => number_value(v@) == Err::<Option<i32>, Seq<char>>(e@),
        },
{
    if str_eq_ignore_case(v, "unset") {
        return Ok(None);
    }
    let c = to_chars(v);
    match read_int(c.as_slice(), i32::MIN as i64, i32::MAX as i64) {
        Some(n) => Ok(Some(n as i32)),
        None => {
            let mut e: String = "`".to_owned();
            e.append(v);
            e.append("` is not a whole number (or `unset`)");
            Err(e)
        },
    }
}

fn boolean_of_value(v: &str) -> (r: Result<Option<bool>, String>)
    ensures
        match r {
            Ok(b) => boolean_value(v@) == Ok::<Option<bool>, Seq<char>>(b),
            Err(e) => boolean_value(v@) == Err::<Option<bool>, Seq<char>>(e@),
        },
{
    if str_eq_ignore_case(v, "unset") {
        return Ok(None);
    }
    let c = to_chars(v);
    let low = to_lower_all(c.as_slice());
    let w = low.as_slice();
    if is_str(w, "true") || is_str(w, "on") || is_str(w, "yes") || is_str(w, "1") {
        return Ok(Some(true));
    }
    if is_str(w, "false") || is_str(w, "off") || is_str(w, "no") || is_str(w, "0") {
        return Ok(Some(false));
    }
    let mut e: String = "`".to_owned();
    e.append(v);
    e.append("` is not a boolean (true/false, or `unset`)");
    Err(e)
}

fn text_of_value(v: &str) -> (r: Result<String, String>)
    ensures
        match r {
            Ok(t) => text_value(v@) == Ok::<Seq<char>, Seq<char>>(t@),
            Err(e) => text_value(v@) == Err::<Seq<char>, Seq<char>>(e@),
        },
{
    if str_eq_ignore_case(v, "unset") {
        return Ok(String::new());
    }
    match reject_comment_markers("value", v) {
        Ok(_) => Ok(v.to_owned()),
        Err(e) => Err(e),
    }
}

/// What is wrong with a value of a key, or nothing.
pub open spec fn value_problem(key: SweepKey, v: Seq<char>) -> Option<Seq<char>> {
    match key {
        SweepKey::SpecDraftNMax
        | SweepKey::NGpuLayersDraft
        | SweepKey::NGpuLayers
        | SweepKey::NCpuMoe
        | SweepKey::CtxSize
        | SweepKey::BatchSize
        | SweepKey::UbatchSize
        | SweepKey::Parallel
        | SweepKey::CacheRam => match number_value(v) {
            Ok(_) => None,
            Err(e) => Some(e),
        },
        SweepKey::FlashAttn
        | SweepKey::MmprojOffload => match boolean_value(v) {
            Ok(_) => None,
            Err(e) => Some(e),
        },
        _ => match text_value(v) {
            Ok(_) => None,
            Err(e) => Some(e),
        },
    }
}

/// The number, flag or text that a value stands for where nothing is wrong.
pub open spec fn number_set(v: Seq<char>) -> Option<i32> {
    number_value(v)->Ok_0
}

pub open spec fn flag_set(v: Seq<char>) -> Option<bool> {
    boolean_value(v)->Ok_0
}

pub open spec fn text_set(v: Seq<char>) -> Seq<char> {
    text_value(v)->Ok_0
}

/// Whether a preset is another one with the key set to a value, and nothing else
/// changed.
pub open spec fn key_is_set(key: SweepKey, now: Preset, was: Preset, v: Seq<char>) -> bool {
    match key {
        SweepKey::SpecDraftNMax => now == (Preset { spec_draft_n_max: number_set(v), ..was }),
        SweepKey::SpecType => now.spec_type@ == text_set(v) && now == (Preset { spec_type: now.spec_type, ..was }),
        SweepKey::ModelDraft => now.model_draft@ == text_set(v) && now == (Preset { model_draft: now.model_draft, ..was }),
        SweepKey::DeviceDraft => now.device_draft@ == text_set(v) && now == (Preset { device_draft: now.device_draft, ..was }),
        SweepKey::NGpuLayersDraft => now == (Preset { n_gpu_layers_draft: number_set(v), ..was }),
        SweepKey::SpecDraftTypeK => now.spec_draft_type_k@ == text_set(v) && now == (Preset { spec_draft_type_k: now.spec_draft_type_k, ..was }),
        SweepKey::SpecDraftTypeV => now.spec_draft_type_v@ == text_set(v) && now == (Preset { spec_draft_type_v: now.spec_draft_type_v, ..was }),
        SweepKey::Device => now.device@ == text_set(v) && now == (Preset { device: now.device, ..was }),
        SweepKey::TensorSplit => now.tensor_split@ == text_set(v) && now == (Preset { tensor_split: now.tensor_split, ..was }),
        SweepKey::SplitMode => now.split_mode@ == text_set(v) && now == (Preset { split_mode: now.split_mode, ..was }),
        SweepKey::OverrideTensor => now.override_tensor@ == text_set(v) && now == (Preset { override_tensor: now.override_tensor, ..was }),
        SweepKey::NGpuLayers => now == (Preset { n_gpu_layers: number_set(v), ..was }),
        SweepKey::NCpuMoe => now == (Preset { n_cpu_moe: number_set(v), ..was }),
        SweepKey::CtxSize => now == (Preset { ctx_size: number_set(v), ..was }),
        SweepKey::BatchSize => now == (Preset { batch_size: number_set(v), ..was }),
        SweepKey::UbatchSize => now == (Preset { ubatch_size: number_set(v), ..was }),
        SweepKey::Parallel => now == (Preset { parallel: number_set(v), ..was }),
        SweepKey::CacheRam => now == (Preset { cache_ram: number_set(v), ..was }),
        SweepKey::CacheTypeK => now.cache_type_k@ == text_set(v) && now == (Preset { cache_type_k: now.cache_type_k, ..was }),
        SweepKey::CacheTypeV => now.cache_type_v@ == text_set(v) && now == (Preset { cache_type_v: now.cache_type_v, ..was }),
        SweepKey::FlashAttn => now == (Preset { flash_attn: flag_set(v), ..was }),
        SweepKey::MmprojOffload => now == (Preset { mmproj_offload: flag_set(v), ..was }),
    }
}

impl SweepKey {
    /// Sets the key of a preset. A value that is wrong changes nothing.
    pub fn set(self, p: &mut Preset, v: &str) -> (r: Result<(), String>)
        ensures
            match r {
                Ok(_) => value_problem(self, v@) is None && key_is_set(self, *final(p), *old(p), v@),
                Err(e) => value_problem(self, v@) == Some(e@) && *final(p) == *old(p),
            },
    {
        match self {
            SweepKey::SpecDraftNMax => match int_of_value(v) {
                Ok(x) => {
                    p.spec_draft_n_max = x;
                    Ok(())
                },
                Err(e) => Err(e),
            },
            SweepKey::SpecType => match text_of_value(v) {
                Ok(x) => {
                    p.spec_type = x;
                    Ok(())
                },
                Err(e) => Err(e),
            },
            SweepKey::ModelDraft => match text_of_value(v) {
                Ok(x) => {
                    p.model_draft = x;
                    Ok(())
                },
                Err(e) => Err(e),
            },
            SweepKey::DeviceDraft => match text_of_value(v) {
                Ok(x) => {
                    p.device_draft = x;
                    Ok(())
                },
                Err(e) => Err(e),
            },
            SweepKey::NGpuLayersDraft => match int_of_value(v) {
                Ok(x) => {
                    p.n_gpu_layers_draft = x;
                    Ok(())
                },
                Err(e) => Err(e),
            },
            SweepKey::SpecDraftTypeK => match text_of_value(v) {
                Ok(x) => {
                    p.spec_draft_type_k = x;
                    Ok(())
                },
                Err(e) => Err(e),
            },
            SweepKey::SpecDraftTypeV => match text_of_value(v) {
                Ok(x) => {
                    p.spec_draft_type_v = x;
                    Ok(())
                },
                Err(e) => Err(e),
            },
            SweepKey::Device => match text_of_value(v) {
                Ok(x) => {
                    p.device = x;
                    Ok(())
                },
                Err(e) => Err(e),
            },
            SweepKey::TensorSplit => match text_of_value(v) {
                Ok(x) => {
                    p.tensor_split = x;
                    Ok(())
                },
                Err(e) => Err(e),
            },
            SweepKey::SplitMode => match text_of_value(v) {
                Ok(x) => {
                    p.split_mode = x;
                    Ok(())
                },
                Err(e) => Err(e),
            },
            SweepKey::OverrideTensor => match text_of_value(v) {
                Ok(x) => {
                    p.override_tensor = x;
                    Ok(())
                },
                Err(e) => Err(e),
            },
            SweepKey::NGpuLayers => match int_of_value(v) {
                Ok(x) => {
                    p.n_gpu_layers = x;
                    Ok(())
                },
                Err(e) => Err(e),
            },
            SweepKey::NCpuMoe => match int_of_value(v) {
                Ok(x) => {
                    p.n_cpu_moe = x;
                    Ok(())
                },
                Err(e) => Err(e),
            },
            SweepKey::CtxSize => match int_of_value(v) {
                Ok(x) => {
                    p.ctx_size = x;
                    Ok(())
                },
                Err(e) => Err(e),
            },
            SweepKey::BatchSize => match int_of_value(v) {
                Ok(x) => {
                    p.batch_size = x;
                    Ok(())
                },
                Err(e) => Err(e),
            },
            SweepKey::UbatchSize => match int_of_value(v) {
                Ok(x) => {
                    p.ubatch_size = x;
                    Ok(())
                },
                Err(e) => Err(e),
            },
            SweepKey::Parallel => match int_of_value(v) {
                Ok(x) => {
                    p.parallel = x;
                    Ok(())
                },
                Err(e) => Err(e),
            },
            SweepKey::CacheRam => match int_of_value(v) {
                Ok(x) => {
                    p.cache_ram = x;
                    Ok(())
                },
                Err(e) => Err(e),
            },
            SweepKey::CacheTypeK => match text_of_value(v) {
                Ok(x) => {
                    p.cache_type_k = x;
                    Ok(())
                },
                Err(e) => Err(e),
            },
            SweepKey::CacheTypeV => match text_of_value(v) {
                Ok(x) => {
                    p.cache_type_v = x;
                    Ok(())
                },
                Err(e) => Err(e),
            },
            SweepKey::FlashAttn => match boolean_of_value(v) {
                Ok(x) => {
                    p.flash_attn = x;
                    Ok(())
                },
                Err(e) => Err(e),
            },
            SweepKey::MmprojOffload => match boolean_of_value(v) {
                Ok(x) => {
                    p.mmproj_offload = x;
                    Ok(())
                },
                Err(e) => Err(e),
            },
        }
    }
}

// ── The values of a sweep ────────────────────────────────────────────────

/// The widest range that one token may stand for.
pub const MAX_RANGE: i64 = 64;

/// The two ends of a token `a..b`, where both are whole numbers.
pub open spec fn range_ends(token: Seq<char>) -> Option<(int, int)> {
    match find(token, ".."@) {
        Some(i) => {
            let lo = parse_signed(trim(token.take(i)), i64::MIN as int, i64::MAX as int);
            let hi = parse_signed(trim(token.skip(i + ".."@.len())), i64::MIN as int, i64::MAX as int);
            match (lo, hi) {
                (Some(a), Some(b)) => Some((a, b)),
                _ => None,
            }
        },
        None => None,
    }
}

/// The numerals from one number to another.
pub open spec fn numerals_from(lo: int, n: nat) -> Seq<Seq<char>> {
    Seq::new(n, |i: int| dec_int(lo + i))
}

/// The values that one token stands for: a range, or itself.
pub open spec fn expansion(token: Seq<char>) -> Result<Seq<Seq<char>>, Seq<char>> {
    match range_ends(token) {
        Some((lo, hi)) => if lo > hi {
            Err("range `"@ + token + "` runs backwards"@)
        } else if hi - lo + 1 > MAX_RANGE {
            Err(
                "range `"@ + token + "` is "@ + dec((hi - lo + 1) as nat)
                    + " values; list them explicitly if that is meant"@,
            )
        } else {
            Ok(numerals_from(lo, (hi - lo + 1) as nat))
        },
        None => Ok(seq![token]),
    }
}

/// The values of all tokens; the first token that is wrong decides.
pub open spec fn expansions(tokens: Seq<Seq<char>>) -> Result<Seq<Seq<char>>, Seq<char>>
    decreases tokens.len(),
{
    if tokens.len() == 0 {
        Ok(Seq::empty())
    } else {
        match expansions(tokens.drop_last()) {
            Ok(v) => match expansion(tokens.last()) {
                Ok(w) => Ok(v + w),
                Err(e) => Err(e),
            },
            Err(e) => Err(e),
        }
    }
}

/// The values that a list stands for. A semicolon anywhere makes it the separator,
/// because a value may hold commas.
pub open spec fn sweep_values(spec_text: Seq<char>) -> Result<Seq<Seq<char>>, Seq<char>> {
    let sep = if spec_text.contains(';') {
        ';'
    } else {
        ','
    };
    match expansions(entries(spec_text, sep)) {
        Ok(v) => if v.len() == 0 {
            Err("--values is empty: there is nothing to sweep."@)
        } else {
            Ok(v)
        },
        Err(e) => Err(e),
    }
}

fn ends_of(token: &[char]) -> (r: Option<(i64, i64)>)
    ensures
        match r {
            Some((a, b)) => range_ends(token@) == Some((a as int, b as int)),
            None => range_ends(token@) is None,
        },
{
    let dots = to_chars("..");
    let i: usize = match index_of(token, dots.as_slice()) {
        Some(i) => i,
        None => return None,
    };
    let n: usize = token.len();
    let head = slice_subrange(token, 0, i);
    let tail = slice_subrange(token, i + dots.len(), n);
    assert(head@ =~= token@.take(i as int));
    assert(tail@ =~= token@.skip(i + ".."@.len()));
    let lo = read_int(trimmed(head), i64::MIN, i64::MAX);
    let hi = read_int(trimmed(tail), i64::MIN, i64::MAX);
    match lo {
        Some(a) => match hi {
            Some(b) => Some((a, b)),
            None => None,
        },
        None => None,
    }
}

fn expand(token: &[char], out: &mut Vec<String>) -> (r: Result<(), String>)
    ensures
        match r {
            Ok(_) => expansion(token@) is Ok && strs(final(out)@) == strs(old(out)@) + expansion(
                token@,
            )->Ok_0,
            Err(e) => expansion(token@) == Err::<Seq<Seq<char>>, Seq<char>>(e@),
        },
{
    let ghost start = strs(out@);
    match ends_of(token) {
        Some((lo, hi)) => {
            if lo > hi {
                let mut e: String = "range `".to_owned();
                push_chars(&mut e, token);
                e.append("` runs backwards");
                return Err(e);
            }
            let count: i128 = hi as i128 - lo as i128 + 1;
            if count > MAX_RANGE as i128 {
                let mut e: String = "range `".to_owned();
                push_chars(&mut e, token);
                e.append("` is ");
                push_wide(&mut e, count as u128);
                e.append(" values; list them explicitly if that is meant");
                return Err(e);
            }
            let mut i: i64 = 0;
            let n: i64 = count as i64;
            assert(start + numerals_from(lo as int, 0) =~= start);
            while i < n
                invariant
                    0 <= i <= n <= MAX_RANGE,
                    lo + n - 1 == hi,
                    strs(out@) == start + numerals_from(lo as int, i as nat),
                decreases n - i,
            {
                let ghost before = out@;
                let v: i64 = (lo as i128 + i as i128) as i64;
                out.push(int_str(v));
                proof {
                    assert(strs(out@) =~= strs(before).push(dec_int(lo + i)));
                    assert(strs(out@) =~= start + numerals_from(lo as int, (i + 1) as nat));
                }
                i += 1;
            }
            Ok(())
        },
        None => {
            out.push(from_chars(token));
            assert(strs(out@) =~= start + seq![token@]);
            Ok(())
        },
    }
}

/// The values of a sweep, in order.
pub fn parse_values(spec_text: &str) -> (r: Result<Vec<String>, String>)
    ensures
        match r {
            Ok(v) => sweep_values(spec_text@) == Ok::<Seq<Seq<char>>, Seq<char>>(strs(v@)),
            Err(e) => sweep_values(spec_text@) == Err::<Seq<Seq<char>>, Seq<char>>(e@),
        },
{
    let c = to_chars(spec_text);
    let sep: char = if has_char(c.as_slice(), ';') {
        ';'
    } else {
        ','
    };
    let tokens = entries_of(c.as_slice(), sep);
    let ghost ts = pieces(tokens@);
    let mut out: Vec<String> = Vec::new();
    let mut i: usize = 0;
    assert(strs(out@) =~= Seq::<Seq<char>>::empty());
    assert(ts.take(0) =~= Seq::<Seq<char>>::empty());
    while i < tokens.len()
        invariant
            i <= tokens.len(),
            ts == pieces(tokens@),
            ts == entries(spec_text@, sep),
            sep == if spec_text@.contains(';') {
                ';'
            } else {
                ','
            },
            expansions(ts.take(i as int)) == Ok::<Seq<Seq<char>>, Seq<char>>(strs(out@)),
        decreases tokens.len() - i,
    {
        proof {
            assert(ts.take(i + 1).drop_last() =~= ts.take(i as int));
            assert(ts.take(i + 1).last() == tokens@[i as int]@);
        }
        if let Err(e) = expand(tokens[i], &mut out) {
            proof {
                lemma_expansions_fail(ts, i + 1, e@);
            }
            return Err(e);
        }
        i += 1;
    }
    assert(ts.take(tokens@.len() as int) =~= ts);
    assert(strs(out@).len() == out@.len());
    if out.len() == 0 {
        return Err("--values is empty: there is nothing to sweep.".to_owned());
    }
    Ok(out)
}

proof fn lemma_expansions_fail(ts: Seq<Seq<char>>, n: int, e: Seq<char>)
    requires
        0 <= n <= ts.len(),
        expansions(ts.take(n)) == Err::<Seq<Seq<char>>, Seq<char>>(e),
    ensures
        expansions(ts) == Err::<Seq<Seq<char>>, Seq<char>>(e),
    decreases ts.len() - n,
{
    if n == ts.len() {
        assert(ts.take(n) =~= ts);
    } else {
        assert(ts.take(n + 1).drop_last() =~= ts.take(n));
        lemma_expansions_fail(ts, n + 1, e);
    }
}

// ── The plan of a sweep ──────────────────────────────────────────────────

/// What the preset is left on when a sweep is done.
#[derive(Clone, Copy, PartialEq, Eq, Structural, Debug)]
pub enum Apply {
    /// The value from before the sweep.
    Original,
    /// The value that won.
    Best,
    /// The value measured last.
    Last,
}

impl Apply {
    pub open spec fn word(self) -> Seq<char> {
        match self {
            Apply::Original => "original"@,
            Apply::Best => "best"@,
            Apply::Last => "last"@,
        }
    }

    /// What a word stands for; one that is not known puts the original back.
    pub fn from_str(s: &str) -> (r: Apply)
        ensures
            r == if s@ == "best"@ {
                Apply::Best
            } else if s@ == "last"@ {
                Apply::Last
            } else {
                Apply::Original
            },
    {
        if str_eq(s, "best") {
            Apply::Best
        } else if str_eq(s, "last") {
            Apply::Last
        } else {
            Apply::Original
        }
    }

    pub fn as_str(self) -> (r: &'static str)
        ensures
            r@ == self.word(),
    {
        match self {
            Apply::Original => "original",
            Apply::Best => "best",
            Apply::Last => "last",
        }
    }
}

/// One sweep.
#[derive(Debug, Clone, PartialEq, Eq)]
pub struct Opts {
    pub preset: String,
    pub key: String,
    pub values: Vec<String>,
    pub plan: Plan,
    pub apply: Apply,
    /// What to put back, where it is not what the file holds.
    pub restore_to: Option<String>,
}

/// One value that was measured, or that failed.
#[derive(Debug, Clone, PartialEq, Eq)]
pub struct Leg {
    pub value: String,
    pub points: Vec<Point>,
    /// The file name of the leg's own report, or empty.
    pub report: String,
    pub error: String,
    pub secs: u64,
}

impl Default for Leg {
    fn default() -> (r: Self)
        ensures
            r.value@.len() == 0,
            r.points@.len() == 0,
            r.report@.len() == 0,
            r.error@.len() == 0,
            r.secs == 0,
    {
        Leg {
            value: String::new(),
            points: Vec::new(),
            report: String::new(),
            error: String::new(),
            secs: 0,
        }
    }
}

/// The first point of a test, or -1.
pub open spec fn test_at(ps: Seq<PointView>, test: Seq<char>) -> int
    decreases ps.len(),
{
    if ps.len() == 0 {
        -1
    } else if test_at(ps.drop_last(), test) >= 0 {
        test_at(ps.drop_last(), test)
    } else if ps.last().test == test {
        ps.len() - 1
    } else {
        -1
    }
}

impl Leg {
    /// The point of a test.
    pub open spec fn measured(self, test: Seq<char>) -> Option<PointView> {
        let ps = points_view(self.points@);
        if 0 <= test_at(ps, test) < ps.len() {
            Some(ps[test_at(ps, test)])
        } else {
            None
        }
    }

    /// The point of a test.
    pub fn point(&self, test: &str) -> (r: Option<&Point>)
        ensures
            match r {
                Some(p) => self.measured(test@) == Some(p@),
                None => self.measured(test@) is None,
            },
    {
        let ghost ps = points_view(self.points@);
        let mut i: usize = 0;
        while i < self.points.len()
            invariant
                i <= self.points@.len(),
                ps == points_view(self.points@),
                test_at(ps.take(i as int), test@) < 0,
            decreases self.points.len() - i,
        {
            proof {
                assert(ps.take(i + 1).drop_last() =~= ps.take(i as int));
                assert(ps.take(i + 1).last() == self.points@[i as int]@);
            }
            if str_eq(self.points[i].test.as_str(), test) {
                proof {
                    lemma_test_at_prefix(ps, test@, i + 1);
                }
                return Some(&self.points[i]);
            }
            i += 1;
        }
        assert(ps.take(self.points@.len() as int) =~= ps);
        None
    }
}

proof fn lemma_test_at_prefix(ps: Seq<PointView>, test: Seq<char>, n: int)
    requires
        0 <= n <= ps.len(),
        test_at(ps.take(n), test) >= 0,
    ensures
        test_at(ps, test) == test_at(ps.take(n), test),
    decreases ps.len() - n,
{
    if n == ps.len() {
        assert(ps.take(n) =~= ps);
    } else {
        assert(ps.take(n + 1).drop_last() =~= ps.take(n));
        lemma_test_at_prefix(ps, test, n + 1);
    }
}

// ── Ranking ──────────────────────────────────────────────────────────────

/// The first decode test among some points.
pub open spec fn first_decode(ps: Seq<PointView>) -> Option<Seq<char>>
    decreases ps.len(),
{
    if ps.len() == 0 {
        None
    } else if starts_with(ps[0].test, "tg"@) {
        Some(ps[0].test)
    } else {
        first_decode(ps.skip(1))
    }
}

/// The points of all legs, in order.
pub open spec fn all_points(legs: Seq<Leg>) -> Seq<PointView>
    decreases legs.len(),
{
    if legs.len() == 0 {
        Seq::empty()
    } else {
        all_points(legs.drop_last()) + points_view(legs.last().points@)
    }
}

/// The test that decides which value wins: decode for a live sweep; the first
/// decode test, or failing that the first test, for a synthetic one.
pub open spec fn primary_of(mode: Mode, ps: Seq<PointView>) -> Seq<char> {
    if mode == Mode::Live {
        "decode"@
    } else {
        match first_decode(ps) {
            Some(t) => t,
            None => if ps.len() > 0 {
                ps[0].test
            } else {
                Seq::empty()
            },
        }
    }
}

proof fn lemma_first_decode_append(a: Seq<PointView>, b: Seq<PointView>)
    ensures
        first_decode(a + b) == match first_decode(a) {
            Some(t) => Some(t),
            None => first_decode(b),
        },
    decreases a.len(),
{
    if a.len() == 0 {
        assert(a + b =~= b);
    } else {
        assert((a + b)[0] == a[0]);
        assert((a + b).skip(1) =~= a.skip(1) + b);
        lemma_first_decode_append(a.skip(1), b);
    }
}

fn decode_test(points: &Vec<Point>) -> (r: Option<String>)
    ensures
        opt(r) == first_decode(points_view(points@)),
{
    let ghost ps = points_view(points@);
    let mut i: usize = 0;
    assert(ps.skip(0) =~= ps);
    while i < points.len()
        invariant
            i <= points.len(),
            ps == points_view(points@),
            first_decode(ps) == first_decode(ps.skip(i as int)),
        decreases points.len() - i,
    {
        proof {
            assert(ps.skip(i as int)[0] == points@[i as int]@);
            assert(ps.skip(i as int).skip(1) =~= ps.skip(i + 1));
        }
        let c = to_chars(points[i].test.as_str());
        if has_prefix(c.as_slice(), "tg") {
            return Some(points[i].test.clone());
        }
        i += 1;
    }
    None
}

/// The test that decides which value wins.
pub fn primary_test(mode: Mode, legs: &[Leg]) -> (r: String)
    ensures
        r@ == primary_of(mode, all_points(legs@)),
{
    match mode {
        Mode::Live => return "decode".to_owned(),
        Mode::Synthetic => {},
    }
    let mut first: Option<String> = None;
    let mut decode: Option<String> = None;
    let mut i: usize = 0;
    assert(legs@.take(0) =~= Seq::<Leg>::empty());
    while i < legs.len()
        invariant
            i <= legs.len(),
            opt(decode) == first_decode(all_points(legs@.take(i as int))),
            opt(first) == if all_points(legs@.take(i as int)).len() > 0 {
                Some(all_points(legs@.take(i as int))[0].test)
            } else {
                None
            },
        decreases legs.len() - i,
    {
        proof {
            let t = legs@.take(i + 1);
            assert(t.drop_last() =~= legs@.take(i as int));
            assert(t.last() == legs@[i as int]);
            lemma_first_decode_append(
                all_points(legs@.take(i as int)),
                points_view(legs@[i as int].points@),
            );
            assert(points_view(legs@[i as int].points@).len() == legs@[i as int].points@.len());
        }
        if decode.is_none() {
            decode = decode_test(&legs[i].points);
        }
        if first.is_none() && legs[i].points.len() > 0 {
            first = Some(legs[i].points[0].test.clone());
            assert(points_view(legs@[i as int].points@)[0] == legs@[i as int].points@[0]@);
        }
        i += 1;
    }
    assert(legs@.take(legs@.len() as int) =~= legs@);
    match decode {
        Some(t) => t,
        None => match first {
            Some(t) => t,
            None => String::new(),
        },
    }
}

/// Whether a leg wins on a test: it measured it, no earlier leg did as well, and
/// no later one better.
pub open spec fn wins(legs: Seq<Leg>, test: Seq<char>, i: int) -> bool {
    &&& 0 <= i < legs.len()
    &&& legs[i].measured(test) is Some
    &&& forall|k: int|
        0 <= k < legs.len() && (#[trigger] legs[k]).measured(test) is Some ==> {
            &&& legs[k].measured(test)->0.rank <= legs[i].measured(test)->0.rank
            &&& k < i ==> legs[k].measured(test)->0.rank < legs[i].measured(test)->0.rank
        }
}

/// The leg with the highest mean on a test: the first of them, where some are
/// equal.
pub fn best(legs: &[Leg], test: &str) -> (r: Option<usize>)
    ensures
        match r {
            Some(i) => wins(legs@, test@, i as int),
            None => forall|k: int| 0 <= k < legs@.len() ==> (#[trigger] legs@[k]).measured(test@) is None,
        },
{
    let mut found: Option<usize> = None;
    let mut top: i64 = 0;
    let mut i: usize = 0;
    assert(legs@.take(0) =~= Seq::<Leg>::empty());
    while i < legs.len()
        invariant
            i <= legs.len(),
            match found {
                Some(b) => {
                    &&& b < i
                    &&& legs@[b as int].measured(test@) is Some
                    &&& top == legs@[b as int].measured(test@)->0.rank
                    &&& forall|k: int|
                        0 <= k < i && (#[trigger] legs@[k]).measured(test@) is Some ==> {
                            &&& legs@[k].measured(test@)->0.rank <= top
                            &&& k < b ==> legs@[k].measured(test@)->0.rank < top
                        }
                },
                None => forall|k: int| 0 <= k < i ==> (#[trigger] legs@[k]).measured(test@) is None,
            },
        decreases legs.len() - i,
    {
        if let Some(p) = legs[i].point(test) {
            if found.is_none() || p.rank > top {
                top = p.rank;
                found = Some(i);
            }
        }
        i += 1;
    }
    found
}

// ── The summary ──────────────────────────────────────────────────────────

/// The columns: the deciding test first, then the others as they first appear.
pub open spec fn columns(primary: Seq<char>, ps: Seq<PointView>) -> Seq<Seq<char>>
    decreases ps.len(),
{
    if ps.len() == 0 {
        if primary.len() > 0 {
            seq![primary]
        } else {
            Seq::empty()
        }
    } else {
        let before = columns(primary, ps.drop_last());
        if before.contains(ps.last().test) {
            before
        } else {
            before.push(ps.last().test)
        }
    }
}

fn add_columns(out: &mut Vec<String>, points: &Vec<Point>, Ghost(primary): Ghost<Seq<char>>, Ghost(done): Ghost<Seq<PointView>>)
    requires
        strs(old(out)@) == columns(primary, done),
    ensures
        strs(final(out)@) == columns(primary, done + points_view(points@)),
{
    let ghost ps = points_view(points@);
    let mut i: usize = 0;
    assert(done + ps.take(0) =~= done);
    while i < points.len()
        invariant
            i <= points.len(),
            ps == points_view(points@),
            strs(out@) == columns(primary, done + ps.take(i as int)),
        decreases points.len() - i,
    {
        let ghost before = out@;
        proof {
            let t = done + ps.take(i + 1);
            assert(t.drop_last() =~= done + ps.take(i as int));
            assert(t.last() == points@[i as int]@);
        }
        if !list_has(out, points[i].test.as_str()) {
            out.push(points[i].test.clone());
            assert(strs(out@) =~= strs(before).push(points@[i as int].test@));
        }
        i += 1;
    }
    assert(ps.take(points@.len() as int) =~= ps);
}

fn test_labels(legs: &[Leg], primary: &str) -> (r: Vec<String>)
    ensures
        strs(r@) == columns(primary@, all_points(legs@)),
{
    let mut out: Vec<String> = Vec::new();
    if !primary.is_empty() {
        out.push(primary.to_owned());
    }
    let mut i: usize = 0;
    assert(legs@.take(0) =~= Seq::<Leg>::empty());
    assert(strs(out@) =~= columns(primary@, all_points(legs@.take(0))));
    while i < legs.len()
        invariant
            i <= legs.len(),
            strs(out@) == columns(primary@, all_points(legs@.take(i as int))),
        decreases legs.len() - i,
    {
        proof {
            let t = legs@.take(i + 1);
            assert(t.drop_last() =~= legs@.take(i as int));
            assert(t.last() == legs@[i as int]);
        }
        add_columns(
            &mut out,
            &legs[i].points,
            Ghost(primary@),
            Ghost(all_points(legs@.take(i as int))),
        );
        i += 1;
    }
    assert(legs@.take(legs@.len() as int) =~= legs@);
    out
}

/// What a sweep's table does not mean.
pub open spec fn sweep_caveat_list(mode: Mode) -> Seq<Seq<char>> {
    let base = seq![
        "Legs ran in the order listed, so a card that heats up over a long sweep charges the drift to the LAST values. Re-run with the order reversed when two values are close."@,
        "Only the swept key moved; every other key came from presets.ini as it stood when the sweep started, and a hand edit made while it ran is not reflected in the rows above it."@,
        "Each leg's own report (the `run` column) carries the full environment block, the device ids resolved by name and the raw repetitions. This table is a digest of them, not a replacement."@,
    ];
    if mode == Mode::Live {
        base.push(
            "Every leg restarted llama-server without saving or restoring the conversation snapshot, so the numbers are cold-start numbers and no leg inherited another's KV cache."@,
        )
    } else {
        base
    }
}

/// What a sweep's table does not mean.
pub fn sweep_caveats(mode: Mode) -> (r: Vec<&'static str>)
    ensures
        literals(r@) == sweep_caveat_list(mode),
{
    let mut out: Vec<&'static str> = Vec::new();
    out.push(
        "Legs ran in the order listed, so a card that heats up over a long sweep charges the drift to the LAST values. Re-run with the order reversed when two values are close.",
    );
    out.push(
        "Only the swept key moved; every other key came from presets.ini as it stood when the sweep started, and a hand edit made while it ran is not reflected in the rows above it.",
    );
    out.push(
        "Each leg's own report (the `run` column) carries the full environment block, the device ids resolved by name and the raw repetitions. This table is a digest of them, not a replacement.",
    );
    match mode {
        Mode::Live => {
            out.push(
                "Every leg restarted llama-server without saving or restoring the conversation snapshot, so the numbers are cold-start numbers and no leg inherited another's KV cache.",
            );
        },
        Mode::Synthetic => {},
    }
    assert(literals(out@) =~= sweep_caveat_list(mode));
    out
}

/// Everything the summary says that the legs do not. `ratios` holds, for each leg,
/// the ratio of its rate on the deciding test to that of the first leg.
pub struct Summary<'a> {
    pub opts: &'a Opts,
    pub legs: &'a Vec<Leg>,
    pub ratios: &'a Vec<String>,
    pub original: &'a str,
    pub applied: &'a str,
    pub stamp: &'a str,
    pub server_version: &'a str,
}

/// The settings of a sweep.
pub open spec fn sweep_settings(s: Summary<'_>) -> Seq<(Seq<char>, Seq<char>)> {
    let o = *s.opts;
    seq![
        ("preset"@, o.preset@),
        ("key"@, o.key@),
        ("values"@, join(strs(o.values@), ", "@)),
        ("engine"@, engine_name(o.plan.mode)),
        ("repetitions"@, dec_int(o.plan.reps as int)),
    ] + (if o.plan.mode == Mode::Live {
        seq![
            ("temperature"@, temperature_text(o.plan.temp)),
            ("max output tokens"@, dec_int(o.plan.max_tokens as int)),
            ("prompt"@, dec(o.plan.prompt@.len()) + " chars"@),
        ]
    } else {
        Seq::empty()
    }) + seq![
        (o.key@ + " before the sweep"@, s.original@),
        (o.key@ + " after it"@, s.applied@),
    ] + (if s.server_version@.len() > 0 {
        seq![("llama-server"@, s.server_version@)]
    } else {
        Seq::empty()
    })
}

fn settings_of_sweep(s: &Summary<'_>) -> (r: Vec<(String, String)>)
    ensures
        pairs(r@) == sweep_settings(*s),
{
    let o = s.opts;
    let mut out: Vec<(String, String)> = Vec::new();
    out.push(("preset".to_owned(), o.preset.clone()));
    out.push(("key".to_owned(), o.key.clone()));
    out.push(("values".to_owned(), join_strs(&o.values, ", ")));
    out.push(("engine".to_owned(), engine(o.plan.mode).to_owned()));
    out.push(("repetitions".to_owned(), int_str(o.plan.reps as i64)));
    match o.plan.mode {
        Mode::Live => {
            out.push(("temperature".to_owned(), temperature(&o.plan.temp)));
            out.push(("max output tokens".to_owned(), int_str(o.plan.max_tokens as i64)));
            let c = to_chars(o.plan.prompt.as_str());
            let mut size: String = String::new();
            push_dec(&mut size, c.len() as u64);
            assert(size@ =~= dec(o.plan.prompt@.len()));
            size.append(" chars");
            out.push(("prompt".to_owned(), size));
        },
        Mode::Synthetic => {},
    }
    let mut before: String = o.key.clone();
    before.append(" before the sweep");
    out.push((before, s.original.to_owned()));
    let mut after: String = o.key.clone();
    after.append(" after it");
    out.push((after, s.applied.to_owned()));
    if !s.server_version.is_empty() {
        out.push(("llama-server".to_owned(), s.server_version.to_owned()));
    }
    assert(pairs(out@) =~= sweep_settings(*s));
    out
}

/// How many legs failed.
pub open spec fn failures(legs: Seq<Leg>) -> nat
    decreases legs.len(),
{
    if legs.len() == 0 {
        0
    } else {
        failures(legs.drop_last()) + if legs.last().error@.len() > 0 {
            1nat
        } else {
            0nat
        }
    }
}

fn count_failures(legs: &Vec<Leg>) -> (r: usize)
    ensures
        r == failures(legs@),
        r <= legs@.len(),
{
    let mut n: usize = 0;
    let mut i: usize = 0;
    assert(legs@.take(0) =~= Seq::<Leg>::empty());
    while i < legs.len()
        invariant
            i <= legs.len(),
            n <= i,
            n == failures(legs@.take(i as int)),
        decreases legs.len() - i,
    {
        proof {
            assert(legs@.take(i + 1).drop_last() =~= legs@.take(i as int));
            assert(legs@.take(i + 1).last() == legs@[i as int]);
        }
        if !legs[i].error.as_str().is_empty() {
            n += 1;
        }
        i += 1;
    }
    assert(legs@.take(legs@.len() as int) =~= legs@);
    n
}

/// The warning about legs that failed.
pub open spec fn failure_text(failed: nat, total: nat) -> Seq<char> {
    if failed > 0 {
        "> **WARNING** "@ + dec(failed) + " of "@ + dec(total)
            + " legs failed; their rows carry the error instead of a rate.\n\n"@
    } else {
        Seq::empty()
    }
}

/// The head of the table, column by column; the deciding test has a ratio.
pub open spec fn head_cells(labels: Seq<Seq<char>>, first_value: Seq<char>) -> Seq<char>
    decreases labels.len(),
{
    if labels.len() == 0 {
        Seq::empty()
    } else {
        head_cells(labels.drop_last(), first_value) + " "@ + labels.last() + " | +- |"@ + if labels.len()
            == 1 {
            " vs "@ + first_value + " |"@
        } else {
            Seq::empty()
        }
    }
}

pub open spec fn rule_cells(n: nat) -> Seq<char>
    decreases n,
{
    if n == 0 {
        Seq::empty()
    } else {
        rule_cells((n - 1) as nat) + "---:|---:|"@ + if n == 1 {
            "---:|"@
        } else {
            Seq::empty()
        }
    }
}

/// The rates of a leg on a test.
pub open spec fn rate_cells(leg: Leg, label: Seq<char>) -> Seq<char> {
    match leg.measured(label) {
        Some(p) => " "@ + p.mean + " | "@ + p.sd + " |"@,
        None => " - | - |"@,
    }
}

/// The rate on the deciding test that ratios are measured against.
pub open spec fn has_baseline(legs: Seq<Leg>, primary: Seq<char>) -> bool {
    legs.len() > 0 && legs[0].measured(primary) is Some && legs[0].measured(primary)->0.rank > 0
}

/// The ratio of a leg, where both rates are there and the first is positive.
pub open spec fn ratio_cell(
    legs: Seq<Leg>,
    ratios: Seq<Seq<char>>,
    primary: Seq<char>,
    label: Seq<char>,
    i: int,
) -> Seq<char> {
    if has_baseline(legs, primary) && legs[i].measured(label) is Some {
        ratios[i]
    } else {
        "-"@
    }
}

/// The cells of a leg under the labels.
pub open spec fn leg_cells(
    legs: Seq<Leg>,
    ratios: Seq<Seq<char>>,
    primary: Seq<char>,
    labels: Seq<Seq<char>>,
    i: int,
) -> Seq<char>
    decreases labels.len(),
{
    if labels.len() == 0 {
        Seq::empty()
    } else {
        leg_cells(legs, ratios, primary, labels.drop_last(), i) + rate_cells(legs[i], labels.last())
            + if labels.len() == 1 {
            " "@ + ratio_cell(legs, ratios, primary, labels.last(), i) + " |"@
        } else {
            Seq::empty()
        }
    }
}

/// The note on a leg: what went wrong, or the note on its deciding test.
pub open spec fn leg_note(leg: Leg, primary: Seq<char>) -> Seq<char> {
    if leg.error@.len() > 0 {
        "FAILED: "@ + leg.error@
    } else {
        match leg.measured(primary) {
            Some(p) => p.note,
            None => Seq::empty(),
        }
    }
}

/// The report of a leg.
pub open spec fn leg_report(leg: Leg) -> Seq<char> {
    if leg.report@.len() == 0 {
        "-"@
    } else {
        "`"@ + leg.report@ + "`"@
    }
}

/// The row of a leg.
pub open spec fn leg_row(
    legs: Seq<Leg>,
    ratios: Seq<Seq<char>>,
    primary: Seq<char>,
    labels: Seq<Seq<char>>,
    i: int,
) -> Seq<char> {
    "| "@ + legs[i].value@ + " |"@ + leg_cells(legs, ratios, primary, labels, i) + " "@ + leg_note(
        legs[i],
        primary,
    ) + " | "@ + leg_report(legs[i]) + " |\n"@
}

pub open spec fn leg_rows(
    legs: Seq<Leg>,
    ratios: Seq<Seq<char>>,
    primary: Seq<char>,
    labels: Seq<Seq<char>>,
    n: int,
) -> Seq<char>
    decreases n,
{
    if n <= 0 {
        Seq::empty()
    } else {
        leg_rows(legs, ratios, primary, labels, n - 1) + leg_row(legs, ratios, primary, labels, n - 1)
    }
}

/// The sentence about the winner.
pub open spec fn best_text(
    key: Seq<char>,
    legs: Seq<Leg>,
    ratios: Seq<Seq<char>>,
    primary: Seq<char>,
    i: int,
) -> Seq<char> {
    "**Best: "@ + key + " = "@ + legs[i].value@ + "** at "@ + legs[i].measured(primary)->0.mean
        + " t/s "@ + primary + (if has_baseline(legs, primary) {
        ", "@ + ratios[i] + " the first value"@
    } else {
        Seq::empty()
    }) + ".\n\n"@
}

/// The title and the settings of a summary.
pub open spec fn summary_head(s: Summary<'_>) -> Seq<char> {
    let o = *s.opts;
    "# Benchmark sweep: "@ + o.key@ + " on "@ + o.preset@ + "\n\nGenerated "@ + s.stamp@
        + ".\n\n| setting | value |\n|---|---|\n"@ + table_text(sweep_settings(s)) + "\n"@
        + failure_text(failures(s.legs@), s.legs@.len())
        + "## Results (tokens/s, mean +- sample stddev)\n\n"@
}

/// The table of a summary.
pub open spec fn summary_table(s: Summary<'_>) -> Seq<char> {
    let legs = s.legs@;
    let primary = primary_of(s.opts.plan.mode, all_points(legs));
    let labels = columns(primary, all_points(legs));
    "| "@ + s.opts.key@ + " |"@ + head_cells(labels, legs[0].value@) + " note | run |\n|---|"@
        + rule_cells(labels.len()) + "---|---|\n"@ + leg_rows(
        legs,
        strs(s.ratios@),
        primary,
        labels,
        legs.len() as int,
    ) + "\n"@
}

/// The caveats of a summary.
pub open spec fn summary_tail(mode: Mode) -> Seq<char> {
    "## Caveats\n\n"@ + wrapped_lines(sweep_caveat_list(mode), "- "@, "\n"@) + wrapped_lines(
        caveat_list(mode),
        "- "@,
        "\n"@,
    )
}

/// The summary of a sweep without the sentence about the winner, which depends on
/// there being one.
pub open spec fn summary_text(s: Summary<'_>, winner: Option<int>) -> Seq<char> {
    let legs = s.legs@;
    let primary = primary_of(s.opts.plan.mode, all_points(legs));
    if legs.len() == 0 {
        summary_head(s) + "No legs ran.\n\n"@
    } else {
        summary_head(s) + summary_table(s) + (match winner {
            Some(i) => best_text(s.opts.key@, legs, strs(s.ratios@), primary, i),
            None => Seq::empty(),
        }) + summary_tail(s.opts.plan.mode)
    }
}

fn push_head_cells(out: &mut String, labels: &Vec<String>, first_value: &str)
    ensures
        final(out)@ == old(out)@ + head_cells(strs(labels@), first_value@),
{
    let ghost start = out@;
    let ghost ls = strs(labels@);
    let mut i: usize = 0;
    assert(start + head_cells(ls.take(0), first_value@) =~= start);
    while i < labels.len()
        invariant
            i <= labels.len(),
            ls == strs(labels@),
            start == old(out)@,
            out@ == start + head_cells(ls.take(i as int), first_value@),
        decreases labels.len() - i,
    {
        out.append(" ");
        out.append(labels[i].as_str());
        out.append(" | +- |");
        if i == 0 {
            out.append(" vs ");
            out.append(first_value);
            out.append(" |");
        }
        proof {
            assert(ls.take(i + 1).drop_last() =~= ls.take(i as int));
            assert(ls.take(i + 1).last() == labels@[i as int]@);
            assert(out@ =~= start + head_cells(ls.take(i + 1), first_value@));
        }
        i += 1;
    }
    assert(ls.take(labels@.len() as int) =~= ls);
}

fn push_rule_cells(out: &mut String, n: usize)
    ensures
        final(out)@ == old(out)@ + rule_cells(n as nat),
{
    let ghost start = out@;
    let mut i: usize = 0;
    assert(start + rule_cells(0) =~= start);
    while i < n
        invariant
            i <= n,
            start == old(out)@,
            out@ == start + rule_cells(i as nat),
        decreases n - i,
    {
        out.append("---:|---:|");
        if i == 0 {
            out.append("---:|");
        }
        assert(out@ =~= start + rule_cells((i + 1) as nat));
        i += 1;
    }
}

fn baseline_there(legs: &Vec<Leg>, primary: &str) -> (r: bool)
    ensures
        r == has_baseline(legs@, primary@),
{
    if legs.len() == 0 {
        return false;
    }
    match legs[0].point(primary) {
        Some(p) => p.rank > 0,
        None => false,
    }
}

fn push_leg_cells(out: &mut String, legs: &Vec<Leg>, ratios: &Vec<String>, primary: &str, labels: &Vec<String>, at: usize)
    requires
        at < legs@.len(),
        ratios@.len() == legs@.len(),
    ensures
        final(out)@ == old(out)@ + leg_cells(
            legs@,
            strs(ratios@),
            primary@,
            strs(labels@),
            at as int,
        ),
{
    let ghost start = out@;
    let ghost ls = strs(labels@);
    let ghost rs = strs(ratios@);
    let based: bool = baseline_there(legs, primary);
    let mut i: usize = 0;
    assert(start + leg_cells(legs@, rs, primary@, ls.take(0), at as int) =~= start);
    while i < labels.len()
        invariant
            i <= labels.len(),
            at < legs@.len(),
            ratios@.len() == legs@.len(),
            ls == strs(labels@),
            rs == strs(ratios@),
            start == old(out)@,
            based == has_baseline(legs@, primary@),
            out@ == start + leg_cells(legs@, rs, primary@, ls.take(i as int), at as int),
        decreases labels.len() - i,
    {
        let ghost was = out@;
        let p = legs[at].point(labels[i].as_str());
        match p {
            Some(q) => {
                out.append(" ");
                out.append(q.mean.as_str());
                out.append(" | ");
                out.append(q.sd.as_str());
                out.append(" |");
            },
            None => {
                out.append(" - | - |");
            },
        }
        assert(out@ =~= was + rate_cells(legs@[at as int], labels@[i as int]@));
        if i == 0 {
            out.append(" ");
            if based && p.is_some() {
                out.append(ratios[at].as_str());
            } else {
                out.append("-");
            }
            out.append(" |");
        }
        proof {
            assert(rs[at as int] == ratios@[at as int]@);
            assert(ls.take(i + 1).drop_last() =~= ls.take(i as int));
            assert(ls.take(i + 1).last() == labels@[i as int]@);
            assert(out@ =~= start + leg_cells(legs@, rs, primary@, ls.take(i + 1), at as int));
        }
        i += 1;
    }
    assert(ls.take(labels@.len() as int) =~= ls);
}

fn note_of(leg: &Leg, primary: &str) -> (r: String)
    ensures
        r@ == leg_note(*leg, primary@),
{
    if !leg.error.as_str().is_empty() {
        let mut out: String = "FAILED: ".to_owned();
        out.append(leg.error.as_str());
        return out;
    }
    match leg.point(primary) {
        Some(p) => p.note.clone(),
        None => String::new(),
    }
}

fn report_of(leg: &Leg) -> (r: String)
    ensures
        r@ == leg_report(*leg),
{
    if leg.report.as_str().is_empty() {
        return "-".to_owned();
    }
    let mut out: String = "`".to_owned();
    out.append(leg.report.as_str());
    out.append("`");
    out
}

fn push_leg_rows(out: &mut String, legs: &Vec<Leg>, ratios: &Vec<String>, primary: &str, labels: &Vec<String>)
    requires
        ratios@.len() == legs@.len(),
    ensures
        final(out)@ == old(out)@ + leg_rows(
            legs@,
            strs(ratios@),
            primary@,
            strs(labels@),
            legs@.len() as int,
        ),
{
    let ghost start = out@;
    let ghost ls = strs(labels@);
    let ghost rs = strs(ratios@);
    let mut i: usize = 0;
    assert(start + leg_rows(legs@, rs, primary@, ls, 0) =~= start);
    while i < legs.len()
        invariant
            i <= legs.len(),
            ratios@.len() == legs@.len(),
            ls == strs(labels@),
            rs == strs(ratios@),
            start == old(out)@,
            out@ == start + leg_rows(legs@, rs, primary@, ls, i as int),
        decreases legs.len() - i,
    {
        let mut row: String = "| ".to_owned();
        row.append(legs[i].value.as_str());
        row.append(" |");
        push_leg_cells(&mut row, legs, ratios, primary, labels, i);
        row.append(" ");
        let note = note_of(&legs[i], primary);
        row.append(note.as_str());
        row.append(" | ");
        let report = report_of(&legs[i]);
        row.append(report.as_str());
        row.append(" |\n");
        out.append(row.as_str());
        assert(out@ =~= start + leg_rows(legs@, rs, primary@, ls, i + 1));
        i += 1;
    }
}

fn head_part(s: &Summary<'_>) -> (r: String)
    ensures
        r@ == summary_head(*s),
{
    let o = s.opts;
    let mut md: String = "# Benchmark sweep: ".to_owned();
    md.append(o.key.as_str());
    md.append(" on ");
    md.append(o.preset.as_str());
    md.append("\n\nGenerated ");
    md.append(s.stamp);
    md.append(".\n\n| setting | value |\n|---|---|\n");
    let rows = settings_of_sweep(s);
    push_table(&mut md, &rows);
    md.append("\n");
    let failed: usize = count_failures(s.legs);
    let ghost before = md@;
    if failed > 0 {
        let mut w: String = "> **WARNING** ".to_owned();
        push_dec(&mut w, failed as u64);
        w.append(" of ");
        push_dec(&mut w, s.legs.len() as u64);
        w.append(" legs failed; their rows carry the error instead of a rate.\n\n");
        md.append(w.as_str());
    }
    assert(md@ =~= before + failure_text(failures(s.legs@), s.legs@.len()));
    md.append("## Results (tokens/s, mean +- sample stddev)\n\n");
    md
}

fn table_part(s: &Summary<'_>, primary: &str) -> (r: String)
    requires
        s.legs@.len() > 0,
        s.ratios@.len() == s.legs@.len(),
        primary@ == primary_of(s.opts.plan.mode, all_points(s.legs@)),
    ensures
        r@ == summary_table(*s),
{
    let labels = test_labels(s.legs.as_slice(), primary);
    assert(strs(labels@).len() == labels@.len());
    let mut md: String = "| ".to_owned();
    md.append(s.opts.key.as_str());
    md.append(" |");
    push_head_cells(&mut md, &labels, s.legs[0].value.as_str());
    md.append(" note | run |\n|---|");
    push_rule_cells(&mut md, labels.len());
    md.append("---|---|\n");
    push_leg_rows(&mut md, s.legs, s.ratios, primary, &labels);
    md.append("\n");
    md
}

fn tail_part(mode: Mode) -> (r: String)
    ensures
        r@ == summary_tail(mode),
{
    let mut md: String = "## Caveats\n\n".to_owned();
    let a = sweep_caveats(mode);
    push_list(&mut md, &a);
    let b = caveats(mode);
    push_list(&mut md, &b);
    md
}

/// The summary of a sweep: one row for each value, failed ones too, and the winner
/// below them.
pub fn render_summary(s: &Summary<'_>) -> (r: String)
    requires
        s.ratios@.len() == s.legs@.len(),
    ensures
        ({
            let primary = primary_of(s.opts.plan.mode, all_points(s.legs@));
            ||| exists|i: int| #[trigger] wins(s.legs@, primary, i) && r@ == summary_text(*s, Some(i))
            ||| (forall|i: int| !#[trigger] wins(s.legs@, primary, i)) && r@ == summary_text(*s, None)
        }),
{
    let mut md = head_part(s);
    let primary = primary_test(s.opts.plan.mode, s.legs.as_slice());
    if s.legs.len() == 0 {
        md.append("No legs ran.\n\n");
        return md;
    }
    let table = table_part(s, primary.as_str());
    md.append(table.as_str());
    let ghost before = md@;
    let winner = best(s.legs.as_slice(), primary.as_str());
    if let Some(i) = winner {
        let leg = &s.legs[i];
        let mut line: String = "**Best: ".to_owned();
        line.append(s.opts.key.as_str());
        line.append(" = ");
        line.append(leg.value.as_str());
        line.append("** at ");
        if let Some(p) = leg.point(primary.as_str()) {
            line.append(p.mean.as_str());
        }
        line.append(" t/s ");
        line.append(primary.as_str());
        let ghost mid = line@;
        if baseline_there(s.legs, primary.as_str()) {
            line.append(", ");
            line.append(s.ratios[i].as_str());
            line.append(" the first value");
        }
        line.append(".\n\n");
        assert(strs(s.ratios@)[i as int] == s.ratios@[i as int]@);
        assert(line@ =~= best_text(s.opts.key@, s.legs@, strs(s.ratios@), primary@, i as int));
        md.append(line.as_str());
    }
    let tail = tail_part(s.opts.plan.mode);
    let ghost mid = md@;
    md.append(tail.as_str());
    proof {
        match winner {
            Some(i) => {
                assert(md@ == summary_text(*s, Some(i as int)));
                assert(wins(s.legs@, primary@, i as int));
            },
            None => {
                assert(before + Seq::<char>::empty() =~= before);
                assert(md@ == summary_text(*s, None));
            },
        }
    }
    md
}

/// There is at most one winner.
pub proof fn law_one_winner(legs: Seq<Leg>, test: Seq<char>, i: int, j: int)
    requires
        wins(legs, test, i),
        wins(legs, test, j),
    ensures
        i == j,
{
    assert(legs[i].measured(test) is Some);
    assert(legs[j].measured(test) is Some);
}

// ── What a sweep leaves behind ───────────────────────────────────────────

/// The first line of a sweep's file: what to put back, should it never end.
pub open spec fn sweep_header(o: Opts, original: Seq<char>, stamp: Seq<char>) -> JsonView {
    JsonView::Object(
        seq![
            ("kind"@, JsonView::Text("sweep"@)),
            ("stamp"@, JsonView::Text(stamp)),
            ("mode"@, JsonView::Text(o.plan.mode.word())),
            ("preset"@, JsonView::Text(o.preset@)),
            ("key"@, JsonView::Text(o.key@)),
            ("values"@, texts_json(strs(o.values@))),
            ("restore"@, JsonView::Text(original)),
            ("apply"@, JsonView::Text(o.apply.word())),
            ("reps"@, int_json(o.plan.reps as i64)),
        ],
    )
}

fn header_value(o: &Opts, original: &str, stamp: &str) -> (r: Json)
    ensures
        r.shape() == sweep_header(*o, original@, stamp@),
{
    let mut m: Vec<(String, Json)> = Vec::new();
    m.push(("kind".to_owned(), Json::text("sweep")));
    m.push(("stamp".to_owned(), Json::text(stamp)));
    m.push(("mode".to_owned(), Json::text(o.plan.mode.as_str())));
    m.push(("preset".to_owned(), Json::text(o.preset.as_str())));
    m.push(("key".to_owned(), Json::text(o.key.as_str())));
    m.push(("values".to_owned(), Json::texts(&o.values)));
    m.push(("restore".to_owned(), Json::text(original)));
    m.push(("apply".to_owned(), Json::text(o.apply.as_str())));
    m.push(("reps".to_owned(), Json::number(o.plan.reps as i64)));
    let j = Json::Object(m);
    assert(j.shape()->Object_0 =~= sweep_header(*o, original@, stamp@)->Object_0);
    j
}

/// The line that ends a sweep's file.
pub open spec fn sweep_end(applied: Seq<char>, legs: nat) -> JsonView {
    JsonView::Object(
        seq![
            ("kind"@, JsonView::Text("end"@)),
            ("applied"@, JsonView::Text(applied)),
            ("legs"@, count_json(legs)),
        ],
    )
}

/// What a sweep's file says of itself.
#[derive(Debug, Clone, PartialEq, Eq)]
pub struct State {
    pub preset: String,
    pub key: String,
    pub restore: String,
    /// Whether the end line is there.
    pub closed_line: bool,
}

/// A sweep's file as text.
#[verifier::ext_equal]
pub struct StateView {
    pub preset: Seq<char>,
    pub key: Seq<char>,
    pub restore: Seq<char>,
    pub closed_line: bool,
}

impl View for State {
    type V = StateView;

    open spec fn view(&self) -> StateView {
        StateView {
            preset: self.preset@,
            key: self.key@,
            restore: self.restore@,
            closed_line: self.closed_line,
        }
    }
}

/// Whether a line is the one that ends a sweep's file.
pub open spec fn ends_sweep(line: Seq<char>) -> bool {
    contains(line, "\"kind\":\"end\""@)
}

/// Whether one of some lines ends a sweep's file.
pub open spec fn has_end(rest: Seq<Seq<char>>) -> bool {
    exists|i: int| 0 <= i < rest.len() && ends_sweep(#[trigger] rest[i])
}

/// What a header and the lines behind it say.
pub open spec fn state_of(header: JsonView, rest: Seq<Seq<char>>) -> Option<StateView> {
    if text_of(member(header, "kind"@)) == Some("sweep"@) {
        Some(
            StateView {
                preset: text_or_empty(member(header, "preset"@)),
                key: text_or_empty(member(header, "key"@)),
                restore: text_or_empty(member(header, "restore"@)),
                closed_line: has_end(rest),
            },
        )
    } else {
        None
    }
}

/// What a sweep's file says of itself; none where its first line is no header.
pub open spec fn state_in(content: Seq<char>) -> Option<StateView> {
    let ls = lines(content);
    if ls.len() == 0 {
        None
    } else {
        match json_value(trim(ls[0])) {
            Some(h) => state_of(h, ls.skip(1)),
            None => None,
        }
    }
}

fn any_end(ls: &Vec<&[char]>) -> (r: bool)
    requires
        ls@.len() > 0,
    ensures
        r == has_end(pieces(ls@).skip(1)),
{
    let mark = to_chars("\"kind\":\"end\"");
    let ghost rest = pieces(ls@).skip(1);
    let mut i: usize = 1;
    while i < ls.len()
        invariant
            1 <= i <= ls.len(),
            rest == pieces(ls@).skip(1),
            mark@ == "\"kind\":\"end\""@,
            forall|k: int| 0 <= k < i - 1 ==> !ends_sweep(#[trigger] rest[k]),
        decreases ls.len() - i,
    {
        assert(rest[i - 1] == ls@[i as int]@);
        if index_of(ls[i], mark.as_slice()).is_some() {
            assert(ends_sweep(rest[i - 1]));
            return true;
        }
        i += 1;
    }
    false
}

/// Reads the state of a sweep whose header was read.
pub fn state_of_header(header: &Json, closed_line: bool) -> (r: Option<State>)
    ensures
        match r {
            Some(s) => text_of(member(header.shape(), "kind"@)) == Some("sweep"@) && s@ == (StateView {
                preset: text_or_empty(member(header.shape(), "preset"@)),
                key: text_or_empty(member(header.shape(), "key"@)),
                restore: text_or_empty(member(header.shape(), "restore"@)),
                closed_line,
            }),
            None => text_of(member(header.shape(), "kind"@)) != Some("sweep"@),
        },
{
    let kind = match header.get("kind") {
        Some(k) => k.as_str(),
        None => None,
    };
    match kind {
        Some(k) => {
            if !str_eq(k, "sweep") {
                return None;
            }
            Some(
                State {
                    preset: text_at(header, "preset"),
                    key: text_at(header, "key"),
                    restore: text_at(header, "restore"),
                    closed_line,
                },
            )
        },
        None => None,
    }
}

/// Reads a sweep's header and whether the file was ended.
pub fn sweep_state(content: &str) -> (r: Option<State>)
    ensures
        match r {
            Some(s) => state_in(content@) == Some(s@),
            None => state_in(content@) is None,
        },
{
    let c = to_chars(content);
    let ls = lines_of(c.as_slice());
    assert(pieces(ls@).len() == ls@.len());
    if ls.len() == 0 {
        return None;
    }
    assert(pieces(ls@)[0] == ls@[0]@);
    let t = from_chars(trimmed(ls[0]));
    match read_json(t.as_str()) {
        Some(h) => {
            let closed = any_end(&ls);
            state_of_header(&h, closed)
        },
        None => None,
    }
}

proof fn lemma_member_first(m: Seq<(Seq<char>, JsonView)>, key: Seq<char>, i: int)
    requires
        0 <= i < m.len(),
        m[i].0 == key,
        forall|k: int| 0 <= k < i ==> (#[trigger] m[k]).0 != key,
    ensures
        member(JsonView::Object(m), key) == Some(m[i].1),
    decreases m.len(),
{
    lemma_member_at_is(m, key, i);
}

proof fn lemma_header_members(o: Opts, original: Seq<char>, stamp: Seq<char>)
    ensures
        is_record(sweep_header(o, original, stamp)),
        member(sweep_header(o, original, stamp), "kind"@) == Some(JsonView::Text("sweep"@)),
        member(sweep_header(o, original, stamp), "preset"@) == Some(JsonView::Text(o.preset@)),
        member(sweep_header(o, original, stamp), "key"@) == Some(JsonView::Text(o.key@)),
        member(sweep_header(o, original, stamp), "restore"@) == Some(JsonView::Text(original)),
{
    reveal_strlit("kind");
    reveal_strlit("stamp");
    reveal_strlit("mode");
    reveal_strlit("preset");
    reveal_strlit("key");
    reveal_strlit("values");
    reveal_strlit("restore");
    reveal_strlit("apply");
    reveal_strlit("reps");
    let m = sweep_header(o, original, stamp)->Object_0;
    assert("kind"@.len() == 4 && "stamp"@.len() == 5 && "mode"@.len() == 4 && "preset"@.len() == 6
        && "key"@.len() == 3 && "values"@.len() == 6 && "restore"@.len() == 7 && "apply"@.len() == 5
        && "reps"@.len() == 4);
    assert("kind"@[0] == 'k' && "mode"@[0] == 'm' && "reps"@[0] == 'r');
    assert("stamp"@[0] == 's' && "apply"@[0] == 'a');
    assert("preset"@[0] == 'p' && "values"@[0] == 'v');
    assert forall|i: int, k: int| 0 <= i < k < m.len() implies (#[trigger] m[i]).0 != (
    #[trigger] m[k]).0 by {}
    assert forall|i: int| 0 <= i < m.len() implies match (#[trigger] m[i]).1 {
        JsonView::List(l) => forall|k: int| 0 <= k < l.len() ==> is_scalar(#[trigger] l[k]),
        JsonView::Object(_) => false,
        _ => true,
    } by {}
    lemma_member_first(m, "kind"@, 0);
    lemma_member_first(m, "preset"@, 3);
    lemma_member_first(m, "key"@, 4);
    lemma_member_first(m, "restore"@, 6);
}

/// The first line of a sweep's file. Whatever lines follow it, the file reads as
/// that sweep, with the value to restore, and as finished exactly where one of them
/// is an end line.
pub fn header_json(o: &Opts, original: &str, stamp: &str) -> (r: String)
    ensures
        r@ == json_compact(sweep_header(*o, original@, stamp@)),
        !r@.contains('\n'),
        forall|rest: Seq<char>| #[trigger]
            state_in(r@ + seq!['\n'] + rest) == Some(
                StateView {
                    preset: o.preset@,
                    key: o.key@,
                    restore: original@,
                    closed_line: has_end(lines(rest)),
                },
            ),
        json_value(r@) is Some,
        text_of(member(json_value(r@)->0, "kind"@)) == Some("sweep"@),
        text_of(member(json_value(r@)->0, "preset"@)) == Some(o.preset@),
        text_of(member(json_value(r@)->0, "key"@)) == Some(o.key@),
        text_of(member(json_value(r@)->0, "restore"@)) == Some(original@),
{
    let j = header_value(o, original, stamp);
    proof {
        lemma_header_members(*o, original@, stamp@);
    }
    let out = write_compact(&j);
    proof {
        lemma_trim_braces(out@);
        assert forall|rest: Seq<char>| #[trigger]
            state_in(out@ + seq!['\n'] + rest) == Some(
                StateView {
                    preset: o.preset@,
                    key: o.key@,
                    restore: original@,
                    closed_line: has_end(lines(rest)),
                },
            ) by {
            law_sweep_file(out@, rest);
        }
    }
    out
}

proof fn lemma_trim_braces(s: Seq<char>)
    requires
        s.len() >= 2,
        s[0] == '{',
        s.last() == '}',
    ensures
        trim(s) == s,
{
}

/// The line that ends a sweep's file, written once the key is put back.
pub fn end_json(applied: &str, legs: usize) -> (r: String)
    ensures
        r@ == json_compact(sweep_end(applied@, legs as nat)),
        !r@.contains('\n'),
        ends_sweep(r@),
{
    let mut m: Vec<(String, Json)> = Vec::new();
    m.push(("kind".to_owned(), Json::text("end")));
    m.push(("applied".to_owned(), Json::text(applied)));
    m.push(("legs".to_owned(), Json::count(legs)));
    let j = Json::Object(m);
    proof {
        let v = sweep_end(applied@, legs as nat);
        assert(j.shape()->Object_0 =~= v->Object_0);
        let ms = v->Object_0;
        reveal_strlit("kind");
        reveal_strlit("applied");
        reveal_strlit("legs");
        reveal_strlit("end");
        reveal_strlit("\"kind\":\"end\"");
        reveal_strlit("\"");
        reveal_strlit("\":\"");
        assert("kind"@[0] == 'k' && "legs"@[0] == 'l');
        assert forall|i: int, k: int| 0 <= i < k < ms.len() implies (#[trigger] ms[i]).0 != (
        #[trigger] ms[k]).0 by {}
        assert forall|i: int| 0 <= i < ms.len() implies match (#[trigger] ms[i]).1 {
            JsonView::List(l) => forall|k: int| 0 <= k < l.len() ==> is_scalar(#[trigger] l[k]),
            JsonView::Object(_) => false,
            _ => true,
        } by {}
        lemma_member_first(ms, "kind"@, 0);
        assert(is_plain("kind"@) && is_plain("end"@));
        assert("\""@ + "kind"@ + "\":\""@ + "end"@ + "\""@ =~= "\"kind\":\"end\""@);
    }
    write_compact(&j)
}

/// A sweep's file is known by its header, whatever lines follow it, and is closed
/// exactly where one of them is an end line: the file of a header line and any
/// other lines reads as the state that the header recorded.
pub proof fn law_sweep_file(header: Seq<char>, rest: Seq<char>)
    requires
        !header.contains('\n'),
        trim(header) == header,
        header.len() > 0,
        json_value(header) is Some,
    ensures
        state_in(header + seq!['\n'] + rest) == state_of(json_value(header)->0, lines(rest)),
{
    let s = header + seq!['\n'] + rest;
    assert forall|k: int| 0 <= k < header.len() implies s[k] != '\n' by {
        assert(s[k] == header[k]);
        assert(header.contains(header[k]));
    }
    assert(s[header.len() as int] == '\n');
    lemma_find_char_is(s, '\n', header.len() as int);
    assert(s.take(header.len() as int) =~= header);
    assert(s.skip(header.len() as int + 1) =~= rest);
    lemma_trim_keeps_end(header);
    assert(strip_cr(header) == header);
    let ls = lines(s);
    assert(ls =~= seq![header] + lines(rest));
    assert(ls[0] == header);
    assert(ls.skip(1) =~= lines(rest));
}

proof fn lemma_trim_keeps_end(s: Seq<char>)
    requires
        trim(s) == s,
        s.len() > 0,
    ensures
        s.last() != '\r',
{
    lemma_trim_start_shape(s);
    lemma_trim_end_shape(trim_start(s));
}

/// A leg as a line: the numerals of its points, not the texts of the table.
pub fn leg_json(value: &str, points: &Vec<Measured>, report: &str, error: &str, secs: u64) -> (r: String)
    ensures
        r@ == json_compact(leg_object(value@, points@, report@, error@, secs)),
        !r@.contains('\n'),
{
    let mut list: Vec<Json> = Vec::new();
    let mut i: usize = 0;
    while i < points.len()
        invariant
            i <= points.len(),
            list@.len() == i,
            forall|k: int| 0 <= k < i ==> (#[trigger] list@[k]).shape() == leg_point(points@[k]),
        decreases points.len() - i,
    {
        list.push(leg_point_json(&points[i]));
        i += 1;
    }
    let all = Json::List(list);
    let ghost ps = JsonView::List(points@.map_values(|p: Measured| leg_point(p)));
    assert(all.shape()->List_0 =~= ps->List_0);
    assert(all.shape() == ps);
    let mut m: Vec<(String, Json)> = Vec::new();
    m.push(("kind".to_owned(), Json::text("leg")));
    m.push(("value".to_owned(), Json::text(value)));
    m.push(("points".to_owned(), all));
    m.push(("report".to_owned(), Json::text(report)));
    m.push(("error".to_owned(), Json::text(error)));
    m.push(("secs".to_owned(), Json::unsigned(secs)));
    let j = Json::Object(m);
    assert(j.shape()->Object_0 =~= leg_object(value@, points@, report@, error@, secs)->Object_0);
    write_compact(&j)
}

/// A point of a leg.
pub open spec fn leg_point(p: Measured) -> JsonView {
    JsonView::Object(
        seq![
            ("test"@, JsonView::Text(p.test@)),
            ("mean"@, decimal_json(p.mean@)),
            ("sd"@, decimal_json(p.sd@)),
            ("n"@, int_json(p.n as i64)),
            ("note"@, JsonView::Text(p.note@)),
        ],
    )
}

/// A leg as a line.
pub open spec fn leg_object(
    value: Seq<char>,
    points: Seq<Measured>,
    report: Seq<char>,
    error: Seq<char>,
    secs: u64,
) -> JsonView {
    JsonView::Object(
        seq![
            ("kind"@, JsonView::Text("leg"@)),
            ("value"@, JsonView::Text(value)),
            ("points"@, JsonView::List(points.map_values(|p: Measured| leg_point(p)))),
            ("report"@, JsonView::Text(report)),
            ("error"@, JsonView::Text(error)),
            ("secs"@, count_json(secs as nat)),
        ],
    )
}

fn leg_point_json(p: &Measured) -> (r: Json)
    ensures
        r.shape() == leg_point(*p),
{
    let mut m: Vec<(String, Json)> = Vec::new();
    m.push(("test".to_owned(), Json::text(p.test.as_str())));
    m.push(("mean".to_owned(), decimal_number(p.mean.as_str())));
    m.push(("sd".to_owned(), decimal_number(p.sd.as_str())));
    m.push(("n".to_owned(), Json::number(p.n as i64)));
    m.push(("note".to_owned(), Json::text(p.note.as_str())));
    let j = Json::Object(m);
    assert(j.shape()->Object_0 =~= leg_point(*p)->Object_0);
    j
}

// ── Decisions of a sweep ─────────────────────────────────────────────────

/// The value that the preset is left on.
pub open spec fn applied_value(apply: Apply, original: Seq<char>, legs: Seq<Leg>, winner: Option<int>) -> Seq<char> {
    match apply {
        Apply::Original => original,
        Apply::Last => if legs.len() > 0 {
            legs.last().value@
        } else {
            original
        },
        Apply::Best => match winner {
            Some(i) => legs[i].value@,
            None => original,
        },
    }
}

/// The value that the preset is left on: what it had, the winner, or the last.
pub fn value_to_apply(apply: Apply, original: &str, legs: &Vec<Leg>, mode: Mode) -> (r: String)
    ensures
        ({
            let primary = primary_of(mode, all_points(legs@));
            ||| exists|i: int|
                #[trigger] wins(legs@, primary, i) && r@ == applied_value(
                    apply,
                    original@,
                    legs@,
                    Some(i),
                )
            ||| (forall|i: int| !#[trigger] wins(legs@, primary, i)) && r@ == applied_value(
                apply,
                original@,
                legs@,
                None,
            )
        }),
{
    let primary = primary_test(mode, legs.as_slice());
    let winner = best(legs.as_slice(), primary.as_str());
    proof {
        if let Some(i) = winner {
            assert(wins(legs@, primary@, i as int));
        }
    }
    match apply {
        Apply::Original => original.to_owned(),
        Apply::Last => if legs.len() > 0 {
            legs[legs.len() - 1].value.clone()
        } else {
            original.to_owned()
        },
        Apply::Best => match winner {
            Some(i) => legs[i].value.clone(),
            None => original.to_owned(),
        },
    }
}

/// The sweeps of a directory, newest first: what each file says of itself, and
/// whether its summary is there.
pub struct SweepFile {
    pub state: State,
    pub has_summary: bool,
}

/// Whether a file is of the preset and key.
pub open spec fn is_of(f: SweepFile, preset: Seq<char>, key: Seq<char>) -> bool {
    f.state@.preset == preset && f.state@.key == key
}

/// The first file of the preset and key, or the number of files.
pub open spec fn newest_of(files: Seq<SweepFile>, preset: Seq<char>, key: Seq<char>, from: int) -> int
    decreases files.len() - from,
{
    if from < 0 || from >= files.len() || is_of(files[from], preset, key) {
        from
    } else {
        newest_of(files, preset, key, from + 1)
    }
}

/// The newest sweep of a preset and key, where it was interrupted: its place among
/// the files. A newer finished sweep clears an older one that was not.
pub fn interrupted(files: &Vec<SweepFile>, preset: &str, key: &str) -> (r: Option<usize>)
    ensures
        ({
            let at = newest_of(files@, preset@, key@, 0);
            match r {
                Some(i) => i == at && at < files@.len() && !files@[at].state@.closed_line
                    && !files@[at].has_summary,
                None => at >= files@.len() || files@[at].state@.closed_line || files@[at].has_summary,
            }
        }),
{
    let mut i: usize = 0;
    while i < files.len()
        invariant
            i <= files.len(),
            newest_of(files@, preset@, key@, 0) == newest_of(files@, preset@, key@, i as int),
        decreases files.len() - i,
    {
        let f = &files[i];
        if str_eq(f.state.preset.as_str(), preset) && str_eq(f.state.key.as_str(), key) {
            if f.state.closed_line || f.has_summary {
                return None;
            }
            return Some(i);
        }
        i += 1;
    }
    None
}

/// What is said of the legs that failed.
pub open spec fn leg_problems(key: Seq<char>, legs: Seq<Leg>) -> Seq<Seq<char>>
    decreases legs.len(),
{
    if legs.len() == 0 {
        Seq::empty()
    } else {
        let before = leg_problems(key, legs.drop_last());
        if legs.last().error@.len() > 0 {
            before.push(key + " = "@ + legs.last().value@ + ": "@ + legs.last().error@)
        } else {
            before
        }
    }
}

/// How a sweep ends: everything that went wrong, or nothing.
pub fn sweep_problems(key: &str, legs: &Vec<Leg>) -> (r: Vec<String>)
    ensures
        strs(r@) == leg_problems(key@, legs@),
{
    let mut out: Vec<String> = Vec::new();
    let mut i: usize = 0;
    assert(legs@.take(0) =~= Seq::<Leg>::empty());
    assert(strs(out@) =~= Seq::<Seq<char>>::empty());
    while i < legs.len()
        invariant
            i <= legs.len(),
            strs(out@) == leg_problems(key@, legs@.take(i as int)),
        decreases legs.len() - i,
    {
        let ghost before = out@;
        proof {
            assert(legs@.take(i + 1).drop_last() =~= legs@.take(i as int));
            assert(legs@.take(i + 1).last() == legs@[i as int]);
        }
        if !legs[i].error.as_str().is_empty() {
            let mut line: String = key.to_owned();
            line.append(" = ");
            line.append(legs[i].value.as_str());
            line.append(": ");
            line.append(legs[i].error.as_str());
            out.push(line);
            assert(strs(out@) =~= strs(before).push(line@));
        }
        i += 1;
    }
    assert(legs@.take(legs@.len() as int) =~= legs@);
    out
}

/// How a sweep ends: what went wrong with its legs, with putting the key back and
/// with the server. Nothing wrong is success.
pub open spec fn sweep_verdict(
    key: Seq<char>,
    legs: Seq<Leg>,
    restore: Option<Seq<char>>,
    server: Option<Seq<char>>,
    report: Seq<char>,
) -> Option<Seq<char>> {
    let problems = leg_problems(key, legs) + (match restore {
        Some(e) => seq!["could not restore "@ + key + ": "@ + e],
        None => Seq::empty(),
    }) + (match server {
        Some(e) => seq![e],
        None => Seq::empty(),
    });
    if problems.len() == 0 {
        None
    } else {
        Some(join(problems, "; "@) + " (summary written to "@ + report + ")"@)
    }
}

/// How a sweep ends: none where nothing went wrong.
pub fn sweep_outcome(
    key: &str,
    legs: &Vec<Leg>,
    restore: &Option<String>,
    server: &Option<String>,
    report: &str,
) -> (r: Option<String>)
    ensures
        opt(r) == sweep_verdict(key@, legs@, opt(*restore), opt(*server), report@),
{
    let mut problems = sweep_problems(key, legs);
    let ghost a = strs(problems@);
    if let Some(e) = restore {
        let mut line: String = "could not restore ".to_owned();
        line.append(key);
        line.append(": ");
        line.append(e.as_str());
        let ghost text = line@;
        problems.push(line);
        assert(strs(problems@) =~= a + seq![text]);
    }
    let ghost b = strs(problems@);
    assert(restore is None ==> b =~= a + Seq::<Seq<char>>::empty());
    if let Some(e) = server {
        problems.push(e.clone());
        assert(strs(problems@) =~= b + seq![e@]);
    }
    assert(server is None ==> strs(problems@) =~= b + Seq::<Seq<char>>::empty());
    assert(strs(problems@).len() == problems@.len());
    if problems.len() == 0 {
        return None;
    }
    let mut out = join_strs(&problems, "; ");
    out.append(" (summary written to ");
    out.append(report);
    out.append(")");
    Some(out)
}

// ── Files ────────────────────────────────────────────────────────────────

/// The names of the two files that a sweep writes beside those of its legs. They
/// do not look like those of a run, so that the list of runs passes them over.
pub fn sweep_paths(stamp: &str) -> (r: (String, String))
    ensures
        r.0@ == "sweep-"@ + stamp@ + ".jsonl"@,
        r.1@ == "sweep-"@ + stamp@ + ".md"@,
        stamp_in(r.0@) is None,
        stamp_in(r.1@) is None,
{
    let mut jsonl: String = "sweep-".to_owned();
    jsonl.append(stamp);
    jsonl.append(".jsonl");
    let mut md: String = "sweep-".to_owned();
    md.append(stamp);
    md.append(".md");
    proof {
        reveal_strlit("sweep-");
        reveal_strlit("bench-");
        assert(jsonl@[0] == 's');
        assert(md@[0] == 's');
        assert("bench-"@[0] == 'b');
    }
    (jsonl, md)
}

/// Whether a file name is that of a sweep.
pub open spec fn is_sweep_name(name: Seq<char>) -> bool {
    starts_with(name, "sweep-"@) && ends_with(name, ".jsonl"@)
}

pub open spec fn sweep_names_in(names: Seq<Seq<char>>) -> Seq<Seq<char>>
    decreases names.len(),
{
    if names.len() == 0 {
        Seq::empty()
    } else if is_sweep_name(names.last()) {
        sweep_names_in(names.drop_last()).push(names.last())
    } else {
        sweep_names_in(names.drop_last())
    }
}

/// The sweeps among the names of a directory, newest first.
pub fn sweep_names(names: &Vec<String>) -> (r: Vec<String>)
    ensures
        falling(strs(r@)),
        strs(r@).to_multiset() == sweep_names_in(strs(names@)).to_multiset(),
{
    let mut out: Vec<String> = Vec::new();
    let mut i: usize = 0;
    assert(strs(out@) =~= sweep_names_in(strs(names@).take(0)));
    while i < names.len()
        invariant
            i <= names.len(),
            falling(strs(out@)),
            strs(out@).to_multiset() == sweep_names_in(strs(names@).take(i as int)).to_multiset(),
        decreases names.len() - i,
    {
        proof {
            broadcast use vstd::seq_lib::group_to_multiset_ensures;

            assert(strs(names@).take(i + 1).drop_last() =~= strs(names@).take(i as int));
            assert(strs(names@).take(i + 1).last() == names@[i as int]@);
        }
        let c = to_chars(names[i].as_str());
        if has_prefix(c.as_slice(), "sweep-") && has_suffix(c.as_slice(), ".jsonl") {
            insert_falling(&mut out, names[i].clone());
        }
        i += 1;
    }
    assert(strs(names@).take(names@.len() as int) =~= strs(names@));
    out
}

// ── Before the legs ──────────────────────────────────────────────────────

/// The first value that the key does not take, with what is wrong with it.
pub open spec fn first_bad_value(key: SweepKey, values: Seq<Seq<char>>) -> Option<Seq<char>>
    decreases values.len(),
{
    if values.len() == 0 {
        None
    } else {
        match value_problem(key, values[0]) {
            Some(e) => Some("value `"@ + values[0] + "`: "@ + e),
            None => first_bad_value(key, values.skip(1)),
        }
    }
}

/// Tries every value on a copy of the preset: none where the key takes them all.
pub fn check_values(key: SweepKey, base: &Preset, values: &Vec<String>) -> (r: Option<String>)
    ensures
        opt(r) == first_bad_value(key, strs(values@)),
{
    let ghost vs = strs(values@);
    let mut i: usize = 0;
    assert(vs.skip(0) =~= vs);
    while i < values.len()
        invariant
            i <= values.len(),
            vs == strs(values@),
            first_bad_value(key, vs) == first_bad_value(key, vs.skip(i as int)),
        decreases values.len() - i,
    {
        proof {
            assert(vs.skip(i as int)[0] == values@[i as int]@);
            assert(vs.skip(i as int).skip(1) =~= vs.skip(i + 1));
        }
        let mut probe = base.clone();
        if let Err(e) = key.set(&mut probe, values[i].as_str()) {
            let mut out: String = "value `".to_owned();
            out.append(values[i].as_str());
            out.append("`: ");
            out.append(e.as_str());
            return Some(out);
        }
        i += 1;
    }
    None
}

/// The plan of one leg: the sweep's, for the one preset.
pub fn leg_plan(o: &Opts) -> (r: Plan)
    ensures
        strs(r.presets@) == seq![o.preset@],
        r.mode == o.plan.mode,
        r.reps == o.plan.reps,
        r.prompt@ == o.plan.prompt@,
        opt(r.prompt_file) == opt(o.plan.prompt_file),
        opt(r.temp) == opt(o.plan.temp),
        r.max_tokens == o.plan.max_tokens,
        r.prompt_lens@ == o.plan.prompt_lens@,
        r.depths@ == o.plan.depths@,
        r.n_gen == o.plan.n_gen,
{
    let mut presets: Vec<String> = Vec::new();
    presets.push(o.preset.clone());
    assert(strs(presets@) =~= seq![o.preset@]);
    Plan {
        mode: o.plan.mode,
        presets,
        reps: o.plan.reps,
        prompt: o.plan.prompt.clone(),
        prompt_file: copied(&o.plan.prompt_file),
        temp: copied(&o.plan.temp),
        max_tokens: o.plan.max_tokens,
        prompt_lens: o.plan.prompt_lens.clone(),
        depths: o.plan.depths.clone(),
        n_gen: o.plan.n_gen,
    }
}

/// The value of a key in a section as the file has it, `unset` where it has none.
pub open spec fn value_in_file(text: Seq<char>, preset: Seq<char>, key: Seq<char>) -> Seq<char> {
    let keys = keys_of(text, preset);
    if keys.dom().contains(key) && trim(keys[key]).len() > 0 {
        trim(keys[key])
    } else {
        "unset"@
    }
}

/// The value of a preset's key as presets.ini has it.
pub fn current_value(text: &str, preset: &str, key: &str) -> (r: String)
    ensures
        r@ == value_in_file(text@, preset@, key@),
{
    let keys = read_section(text, preset);
    match keys.get(key) {
        Some(v) => {
            let t = trim_str(v);
            if t.as_str().is_empty() {
                "unset".to_owned()
            } else {
                t
            }
        },
        None => "unset".to_owned(),
    }
}

/// What a sweep will put back: what it was told, or what the file holds.
pub fn value_to_restore(o: &Opts, text: &str) -> (r: String)
    ensures
        r@ == match o.restore_to {
            Some(v) => v@,
            None => value_in_file(text@, o.preset@, o.key@),
        },
{
    match &o.restore_to {
        Some(v) => v.clone(),
        None => current_value(text, o.preset.as_str(), o.key.as_str()),
    }
}

/// The line that a sweep opens with.
pub fn opening_text(o: &Opts) -> (r: String)
    ensures
        r@ == "Sweeping "@ + o.key@ + " = "@ + join(strs(o.values@), ", "@) + " on preset "@
            + o.preset@ + " ("@ + o.plan.mode.word() + " engine, "@ + dec_int(o.plan.reps as int)
            + " repetition"@ + (if o.plan.reps == 1 {
            ""@
        } else {
            "s"@
        }) + ")."@,
{
    let mut out: String = "Sweeping ".to_owned();
    out.append(o.key.as_str());
    out.append(" = ");
    let values = join_strs(&o.values, ", ");
    out.append(values.as_str());
    out.append(" on preset ");
    out.append(o.preset.as_str());
    out.append(" (");
    out.append(o.plan.mode.as_str());
    out.append(" engine, ");
    push_int(&mut out, o.plan.reps as i64);
    out.append(" repetition");
    out.append(
        if o.plan.reps == 1 {
            ""
        } else {
            "s"
        },
    );
    out.append(").");
    out
}

/// The line about the edit of presets.ini.
pub fn edit_text(key: &str, original: &str, jsonl: &str) -> (r: String)
    ensures
        r@ == "presets.ini is being edited; `"@ + key@ + " = "@ + original@
            + "` is restored at the end (also recorded in "@ + jsonl@ + ")."@,
{
    let mut out: String = "presets.ini is being edited; `".to_owned();
    out.append(key);
    out.append(" = ");
    out.append(original);
    out.append("` is restored at the end (also recorded in ");
    out.append(jsonl);
    out.append(").");
    out
}

/// The warning about a sweep that never finished: the value in presets.ini may be
/// one of its legs'.
pub fn leftover_text(path: &str, key: &str, original: &str, restore: &str) -> (r: String)
    ensures
        r@ == "WARNING: "@ + path@ + " never finished, so `"@ + key@ + " = "@ + original@
            + "` may be ITS leftover. That sweep recorded `"@ + restore@
            + "` as the value to put back; pass --restore-to "@ + restore@
            + " to restore that instead."@,
{
    let mut out: String = "WARNING: ".to_owned();
    out.append(path);
    out.append(" never finished, so `");
    out.append(key);
    out.append(" = ");
    out.append(original);
    out.append("` may be ITS leftover. That sweep recorded `");
    out.append(restore);
    out.append("` as the value to put back; pass --restore-to ");
    out.append(restore);
    out.append(" to restore that instead.");
    out
}

// ── After a leg ──────────────────────────────────────────────────────────

/// What is said of a leg as it lands. `n` counts the repetitions of its deciding
/// test.
pub open spec fn leg_line_text(leg: Leg, mode: Mode, n: int) -> Seq<char> {
    let primary = primary_of(mode, points_view(leg.points@));
    if leg.error@.len() > 0 {
        "    -> failed after "@ + dec(leg.secs as nat) + " s: "@ + leg.error@
    } else {
        match leg.measured(primary) {
            Some(p) => "    -> "@ + primary + " "@ + p.mean + " t/s (+- "@ + p.sd + ", n="@
                + dec_int(n) + ") in "@ + dec(leg.secs as nat) + " s"@ + (if p.note.len() > 0 {
                ", "@ + p.note
            } else {
                Seq::empty()
            }),
            None => "    -> no "@ + primary + " row in "@ + dec(leg.secs as nat) + " s"@,
        }
    }
}

/// What is said of a leg as it lands.
pub fn report_leg(leg: &Leg, mode: Mode, n: i32) -> (r: String)
    ensures
        r@ == leg_line_text(*leg, mode, n as int),
{
    if !leg.error.as_str().is_empty() {
        let mut out: String = "    -> failed after ".to_owned();
        push_dec(&mut out, leg.secs);
        out.append(" s: ");
        out.append(leg.error.as_str());
        return out;
    }
    let primary = match mode {
        Mode::Live => "decode".to_owned(),
        Mode::Synthetic => match decode_test(&leg.points) {
            Some(t) => t,
            None => if leg.points.len() > 0 {
                assert(points_view(leg.points@)[0] == leg.points@[0]@);
                leg.points[0].test.clone()
            } else {
                String::new()
            },
        },
    };
    assert(points_view(leg.points@).len() == leg.points@.len());
    assert(primary@ =~= primary_of(mode, points_view(leg.points@)));
    match leg.point(primary.as_str()) {
        Some(p) => {
            let mut out: String = "    -> ".to_owned();
            out.append(primary.as_str());
            out.append(" ");
            out.append(p.mean.as_str());
            out.append(" t/s (+- ");
            out.append(p.sd.as_str());
            out.append(", n=");
            push_int(&mut out, n as i64);
            out.append(") in ");
            push_dec(&mut out, leg.secs);
            out.append(" s");
            let ghost mid = out@;
            if !p.note.as_str().is_empty() {
                out.append(", ");
                out.append(p.note.as_str());
                assert(out@ =~= mid + (", "@ + p.note@));
            } else {
                assert(out@ =~= mid + Seq::<char>::empty());
            }
            out
        },
        None => {
            let mut out: String = "    -> no ".to_owned();
            out.append(primary.as_str());
            out.append(" row in ");
            push_dec(&mut out, leg.secs);
            out.append(" s");
            out
        },
    }
}

} // verus!
