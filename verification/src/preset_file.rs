//! Presets as they stand in their file: a section for each, named by its id.
use vstd::prelude::*;
use vstd::string::*;
use crate::decimal::{decimal_read, lemma_nothing_reads};
use crate::form::numerals;
use crate::ini::{
    read, read_all, replace_section, section_at, section_set, sections_view, Keys, Section,
    SectionView,
};
use crate::ini_laws::{ends_at_header, plain_key};
use crate::presets::Preset;
use crate::sections::{
    decimal_at, flag_at, flag_of, flag_shown, flag_value, is_number, is_word, keys_in,
    law_section_is_saved, law_section_reads_back, lemma_flag_reads, lemma_less_at,
    lemma_number_reads, lemma_word_is_key, lookup, number_at, number_shown, number_value, pair_line,
    pair_lines, pair_texts, problem_in, problem_of, render, section_of, text_at, text_shown,
    text_value, well_listed, writable,
};
use crate::sweep::SweepKey;
use crate::text::{lemma_text_less_transitive, opt, text_less, trim};

verus! {

// ── Keys and values ──────────────────────────────────────────────────────

/// How many keys a preset has.
pub open spec fn preset_keys() -> int {
    43
}

/// The keys of a preset, in their order.
pub open spec fn preset_key(i: int) -> Seq<char> {
    if i == 0 {
        "backend-sampling"@
    } else if i == 1 {
        "batch-size"@
    } else if i == 2 {
        "cache-ram"@
    } else if i == 3 {
        "cache-type-k"@
    } else if i == 4 {
        "cache-type-v"@
    } else if i == 5 {
        "chat-template-kwargs"@
    } else if i == 6 {
        "ctx-size"@
    } else if i == 7 {
        "device"@
    } else if i == 8 {
        "device-draft"@
    } else if i == 9 {
        "flash-attn"@
    } else if i == 10 {
        "image-max-tokens"@
    } else if i == 11 {
        "image-min-tokens"@
    } else if i == 12 {
        "jinja"@
    } else if i == 13 {
        "min-p"@
    } else if i == 14 {
        "mmproj"@
    } else if i == 15 {
        "mmproj-offload"@
    } else if i == 16 {
        "model"@
    } else if i == 17 {
        "model-draft"@
    } else if i == 18 {
        "n-cpu-ffn"@
    } else if i == 19 {
        "n-cpu-moe"@
    } else if i == 20 {
        "n-gpu-layers"@
    } else if i == 21 {
        "n-gpu-layers-draft"@
    } else if i == 22 {
        "n-predict"@
    } else if i == 23 {
        "override-tensor"@
    } else if i == 24 {
        "parallel"@
    } else if i == 25 {
        "presence-penalty"@
    } else if i == 26 {
        "reasoning"@
    } else if i == 27 {
        "reasoning-budget"@
    } else if i == 28 {
        "reasoning-budget-message"@
    } else if i == 29 {
        "reasoning-effort"@
    } else if i == 30 {
        "reasoning-format"@
    } else if i == 31 {
        "reasoning-preserve"@
    } else if i == 32 {
        "repeat-penalty"@
    } else if i == 33 {
        "spec-draft-n-max"@
    } else if i == 34 {
        "spec-draft-type-k"@
    } else if i == 35 {
        "spec-draft-type-v"@
    } else if i == 36 {
        "spec-type"@
    } else if i == 37 {
        "split-mode"@
    } else if i == 38 {
        "temp"@
    } else if i == 39 {
        "tensor-split"@
    } else if i == 40 {
        "top-k"@
    } else if i == 41 {
        "top-p"@
    } else if i == 42 {
        "ubatch-size"@
    } else {
        Seq::empty()
    }
}

/// The values of a preset, in the order of their keys. What is not set is empty.
pub open spec fn preset_value(p: Preset, i: int) -> Seq<char> {
    if i == 0 {
        flag_shown(p.backend_sampling)
    } else if i == 1 {
        number_shown(p.batch_size)
    } else if i == 2 {
        number_shown(p.cache_ram)
    } else if i == 3 {
        p.cache_type_k@
    } else if i == 4 {
        p.cache_type_v@
    } else if i == 5 {
        p.chat_template_kwargs@
    } else if i == 6 {
        number_shown(p.ctx_size)
    } else if i == 7 {
        p.device@
    } else if i == 8 {
        p.device_draft@
    } else if i == 9 {
        flag_shown(p.flash_attn)
    } else if i == 10 {
        number_shown(p.image_max_tokens)
    } else if i == 11 {
        number_shown(p.image_min_tokens)
    } else if i == 12 {
        flag_shown(p.jinja)
    } else if i == 13 {
        text_shown(p.min_p)
    } else if i == 14 {
        p.mmproj@
    } else if i == 15 {
        flag_shown(p.mmproj_offload)
    } else if i == 16 {
        p.model@
    } else if i == 17 {
        p.model_draft@
    } else if i == 18 {
        number_shown(p.n_cpu_ffn)
    } else if i == 19 {
        number_shown(p.n_cpu_moe)
    } else if i == 20 {
        number_shown(p.n_gpu_layers)
    } else if i == 21 {
        number_shown(p.n_gpu_layers_draft)
    } else if i == 22 {
        number_shown(p.n_predict)
    } else if i == 23 {
        p.override_tensor@
    } else if i == 24 {
        number_shown(p.parallel)
    } else if i == 25 {
        text_shown(p.presence_penalty)
    } else if i == 26 {
        p.reasoning@
    } else if i == 27 {
        number_shown(p.reasoning_budget)
    } else if i == 28 {
        p.reasoning_budget_message@
    } else if i == 29 {
        p.reasoning_effort@
    } else if i == 30 {
        p.reasoning_format@
    } else if i == 31 {
        flag_shown(p.reasoning_preserve)
    } else if i == 32 {
        text_shown(p.repeat_penalty)
    } else if i == 33 {
        number_shown(p.spec_draft_n_max)
    } else if i == 34 {
        p.spec_draft_type_k@
    } else if i == 35 {
        p.spec_draft_type_v@
    } else if i == 36 {
        p.spec_type@
    } else if i == 37 {
        p.split_mode@
    } else if i == 38 {
        text_shown(p.temp)
    } else if i == 39 {
        p.tensor_split@
    } else if i == 40 {
        number_shown(p.top_k)
    } else if i == 41 {
        text_shown(p.top_p)
    } else if i == 42 {
        number_shown(p.ubatch_size)
    } else {
        Seq::empty()
    }
}

/// The keys and values of a preset.
pub open spec fn preset_pairs(p: Preset) -> Seq<(Seq<char>, Seq<char>)> {
    Seq::new(preset_keys() as nat, |i: int| (preset_key(i), preset_value(p, i)))
}

fn pairs_of(p: &Preset) -> (r: Vec<(&'static str, String)>)
    ensures
        pair_texts(r@) == preset_pairs(*p),
{
    let mut v: Vec<(&'static str, String)> = Vec::new();
    v.push(("backend-sampling", flag_value(p.backend_sampling)));
    v.push(("batch-size", number_value(p.batch_size)));
    v.push(("cache-ram", number_value(p.cache_ram)));
    v.push(("cache-type-k", p.cache_type_k.clone()));
    v.push(("cache-type-v", p.cache_type_v.clone()));
    v.push(("chat-template-kwargs", p.chat_template_kwargs.clone()));
    v.push(("ctx-size", number_value(p.ctx_size)));
    v.push(("device", p.device.clone()));
    v.push(("device-draft", p.device_draft.clone()));
    v.push(("flash-attn", flag_value(p.flash_attn)));
    v.push(("image-max-tokens", number_value(p.image_max_tokens)));
    v.push(("image-min-tokens", number_value(p.image_min_tokens)));
    v.push(("jinja", flag_value(p.jinja)));
    v.push(("min-p", text_value(&p.min_p)));
    v.push(("mmproj", p.mmproj.clone()));
    v.push(("mmproj-offload", flag_value(p.mmproj_offload)));
    v.push(("model", p.model.clone()));
    v.push(("model-draft", p.model_draft.clone()));
    v.push(("n-cpu-ffn", number_value(p.n_cpu_ffn)));
    v.push(("n-cpu-moe", number_value(p.n_cpu_moe)));
    v.push(("n-gpu-layers", number_value(p.n_gpu_layers)));
    v.push(("n-gpu-layers-draft", number_value(p.n_gpu_layers_draft)));
    v.push(("n-predict", number_value(p.n_predict)));
    v.push(("override-tensor", p.override_tensor.clone()));
    v.push(("parallel", number_value(p.parallel)));
    v.push(("presence-penalty", text_value(&p.presence_penalty)));
    v.push(("reasoning", p.reasoning.clone()));
    v.push(("reasoning-budget", number_value(p.reasoning_budget)));
    v.push(("reasoning-budget-message", p.reasoning_budget_message.clone()));
    v.push(("reasoning-effort", p.reasoning_effort.clone()));
    v.push(("reasoning-format", p.reasoning_format.clone()));
    v.push(("reasoning-preserve", flag_value(p.reasoning_preserve)));
    v.push(("repeat-penalty", text_value(&p.repeat_penalty)));
    v.push(("spec-draft-n-max", number_value(p.spec_draft_n_max)));
    v.push(("spec-draft-type-k", p.spec_draft_type_k.clone()));
    v.push(("spec-draft-type-v", p.spec_draft_type_v.clone()));
    v.push(("spec-type", p.spec_type.clone()));
    v.push(("split-mode", p.split_mode.clone()));
    v.push(("temp", text_value(&p.temp)));
    v.push(("tensor-split", p.tensor_split.clone()));
    v.push(("top-k", number_value(p.top_k)));
    v.push(("top-p", text_value(&p.top_p)));
    v.push(("ubatch-size", number_value(p.ubatch_size)));
    assert(v@.len() == preset_keys());
    assert forall|i: int| 0 <= i < preset_keys() implies #[trigger] v@[i].0@ == preset_key(i) && v@[i].1@
        == preset_value(*p, i) by {}
    assert(pair_texts(v@) =~= preset_pairs(*p));
    v
}

/// The section of a preset.
pub fn render_section(p: &Preset) -> (r: String)
    ensures
        r@ == section_of(p.id@, preset_pairs(*p)),
{
    let v = pairs_of(p);
    render(p.id.as_str(), &v)
}

/// The text of a file of presets with one of them written into it, or why it cannot
/// be: a value would reload cut short.
pub fn save(text: &str, p: &Preset) -> (r: Result<String, String>)
    ensures
        match problem_of(preset_pairs(*p)) {
            Some(e) => r is Err && r->Err_0@ == e,
            None => r is Ok && r->Ok_0@ == section_set(
                text@,
                p.id@,
                section_of(p.id@, preset_pairs(*p)),
            ),
        },
{
    let v = pairs_of(p);
    if let Some(e) = problem_in(&v) {
        return Err(e);
    }
    let body = render(p.id.as_str(), &v);
    Ok(replace_section(text, p.id.as_str(), body.as_str()))
}

// ── Reading ──────────────────────────────────────────────────────────────

/// Whether a preset is what a section says.
pub open spec fn held_in(p: Preset, s: SectionView) -> bool {
    &&& p.id@ == s.id
    &&& p.backend_sampling == flag_of(lookup(s.keys, "backend-sampling"@))
    &&& is_number(p.batch_size, lookup(s.keys, "batch-size"@))
    &&& is_number(p.cache_ram, lookup(s.keys, "cache-ram"@))
    &&& p.cache_type_k@ == lookup(s.keys, "cache-type-k"@)
    &&& p.cache_type_v@ == lookup(s.keys, "cache-type-v"@)
    &&& p.chat_template_kwargs@ == lookup(s.keys, "chat-template-kwargs"@)
    &&& is_number(p.ctx_size, lookup(s.keys, "ctx-size"@))
    &&& p.device@ == lookup(s.keys, "device"@)
    &&& p.device_draft@ == lookup(s.keys, "device-draft"@)
    &&& p.flash_attn == flag_of(lookup(s.keys, "flash-attn"@))
    &&& is_number(p.image_max_tokens, lookup(s.keys, "image-max-tokens"@))
    &&& is_number(p.image_min_tokens, lookup(s.keys, "image-min-tokens"@))
    &&& p.jinja == flag_of(lookup(s.keys, "jinja"@))
    &&& opt(p.min_p) == decimal_read(lookup(s.keys, "min-p"@))
    &&& p.mmproj@ == lookup(s.keys, "mmproj"@)
    &&& p.mmproj_offload == flag_of(lookup(s.keys, "mmproj-offload"@))
    &&& p.model@ == lookup(s.keys, "model"@)
    &&& p.model_draft@ == lookup(s.keys, "model-draft"@)
    &&& is_number(p.n_cpu_ffn, lookup(s.keys, "n-cpu-ffn"@))
    &&& is_number(p.n_cpu_moe, lookup(s.keys, "n-cpu-moe"@))
    &&& is_number(p.n_gpu_layers, lookup(s.keys, "n-gpu-layers"@))
    &&& is_number(p.n_gpu_layers_draft, lookup(s.keys, "n-gpu-layers-draft"@))
    &&& is_number(p.n_predict, lookup(s.keys, "n-predict"@))
    &&& p.override_tensor@ == lookup(s.keys, "override-tensor"@)
    &&& is_number(p.parallel, lookup(s.keys, "parallel"@))
    &&& opt(p.presence_penalty) == decimal_read(lookup(s.keys, "presence-penalty"@))
    &&& p.reasoning@ == lookup(s.keys, "reasoning"@)
    &&& is_number(p.reasoning_budget, lookup(s.keys, "reasoning-budget"@))
    &&& p.reasoning_budget_message@ == lookup(s.keys, "reasoning-budget-message"@)
    &&& p.reasoning_effort@ == lookup(s.keys, "reasoning-effort"@)
    &&& p.reasoning_format@ == lookup(s.keys, "reasoning-format"@)
    &&& p.reasoning_preserve == flag_of(lookup(s.keys, "reasoning-preserve"@))
    &&& opt(p.repeat_penalty) == decimal_read(lookup(s.keys, "repeat-penalty"@))
    &&& is_number(p.spec_draft_n_max, lookup(s.keys, "spec-draft-n-max"@))
    &&& p.spec_draft_type_k@ == lookup(s.keys, "spec-draft-type-k"@)
    &&& p.spec_draft_type_v@ == lookup(s.keys, "spec-draft-type-v"@)
    &&& p.spec_type@ == lookup(s.keys, "spec-type"@)
    &&& p.split_mode@ == lookup(s.keys, "split-mode"@)
    &&& opt(p.temp) == decimal_read(lookup(s.keys, "temp"@))
    &&& p.tensor_split@ == lookup(s.keys, "tensor-split"@)
    &&& is_number(p.top_k, lookup(s.keys, "top-k"@))
    &&& opt(p.top_p) == decimal_read(lookup(s.keys, "top-p"@))
    &&& is_number(p.ubatch_size, lookup(s.keys, "ubatch-size"@))
}

/// The preset of a section.
pub fn preset_of(s: &Section) -> (r: Preset)
    ensures
        held_in(r, s@),
{
    let k: &Keys = &s.keys;
    Preset {
        id: s.id.clone(),
        backend_sampling: flag_at(k, "backend-sampling"),
        batch_size: number_at(k, "batch-size"),
        cache_ram: number_at(k, "cache-ram"),
        cache_type_k: text_at(k, "cache-type-k"),
        cache_type_v: text_at(k, "cache-type-v"),
        chat_template_kwargs: text_at(k, "chat-template-kwargs"),
        ctx_size: number_at(k, "ctx-size"),
        device: text_at(k, "device"),
        device_draft: text_at(k, "device-draft"),
        flash_attn: flag_at(k, "flash-attn"),
        image_max_tokens: number_at(k, "image-max-tokens"),
        image_min_tokens: number_at(k, "image-min-tokens"),
        jinja: flag_at(k, "jinja"),
        min_p: decimal_at(k, "min-p"),
        mmproj: text_at(k, "mmproj"),
        mmproj_offload: flag_at(k, "mmproj-offload"),
        model: text_at(k, "model"),
        model_draft: text_at(k, "model-draft"),
        n_cpu_ffn: number_at(k, "n-cpu-ffn"),
        n_cpu_moe: number_at(k, "n-cpu-moe"),
        n_gpu_layers: number_at(k, "n-gpu-layers"),
        n_gpu_layers_draft: number_at(k, "n-gpu-layers-draft"),
        n_predict: number_at(k, "n-predict"),
        override_tensor: text_at(k, "override-tensor"),
        parallel: number_at(k, "parallel"),
        presence_penalty: decimal_at(k, "presence-penalty"),
        reasoning: text_at(k, "reasoning"),
        reasoning_budget: number_at(k, "reasoning-budget"),
        reasoning_budget_message: text_at(k, "reasoning-budget-message"),
        reasoning_effort: text_at(k, "reasoning-effort"),
        reasoning_format: text_at(k, "reasoning-format"),
        reasoning_preserve: flag_at(k, "reasoning-preserve"),
        repeat_penalty: decimal_at(k, "repeat-penalty"),
        spec_draft_n_max: number_at(k, "spec-draft-n-max"),
        spec_draft_type_k: text_at(k, "spec-draft-type-k"),
        spec_draft_type_v: text_at(k, "spec-draft-type-v"),
        spec_type: text_at(k, "spec-type"),
        split_mode: text_at(k, "split-mode"),
        temp: decimal_at(k, "temp"),
        tensor_split: text_at(k, "tensor-split"),
        top_k: number_at(k, "top-k"),
        top_p: decimal_at(k, "top-p"),
        ubatch_size: number_at(k, "ubatch-size"),
    }
}

/// The presets of a file's text, in its order.
pub fn load_all(text: &str) -> (r: Vec<Preset>)
    ensures
        r@.len() == read(text@).len(),
        forall|i: int| 0 <= i < r@.len() ==> held_in(#[trigger] r@[i], read(text@)[i]),
{
    let all = read_all(text);
    let mut out: Vec<Preset> = Vec::new();
    let mut i: usize = 0;
    assert(sections_view(all@).len() == all@.len());
    while i < all.len()
        invariant
            i <= all@.len(),
            sections_view(all@) == read(text@),
            out@.len() == i,
            forall|k: int| 0 <= k < i ==> held_in(#[trigger] out@[k], read(text@)[k]),
        decreases all.len() - i,
    {
        assert(sections_view(all@)[i as int] == all@[i as int]@);
        out.push(preset_of(&all[i]));
        i += 1;
    }
    out
}

// ── Laws ─────────────────────────────────────────────────────────────────

proof fn lemma_order_one(i: int)
    requires
        0 <= i < 8,
    ensures
        text_less(preset_key(i), preset_key(i + 1)),
        is_word(preset_key(i)),
        is_word(preset_key(i + 1)),
{
    if i == 0 {
        reveal_strlit("backend-sampling");
        reveal_strlit("batch-size");
        lemma_less_at("backend-sampling"@, "batch-size"@, 2);
    } else if i == 1 {
        reveal_strlit("batch-size");
        reveal_strlit("cache-ram");
        lemma_less_at("batch-size"@, "cache-ram"@, 0);
    } else if i == 2 {
        reveal_strlit("cache-ram");
        reveal_strlit("cache-type-k");
        lemma_less_at("cache-ram"@, "cache-type-k"@, 6);
    } else if i == 3 {
        reveal_strlit("cache-type-k");
        reveal_strlit("cache-type-v");
        lemma_less_at("cache-type-k"@, "cache-type-v"@, 11);
    } else if i == 4 {
        reveal_strlit("cache-type-v");
        reveal_strlit("chat-template-kwargs");
        lemma_less_at("cache-type-v"@, "chat-template-kwargs"@, 1);
    } else if i == 5 {
        reveal_strlit("chat-template-kwargs");
        reveal_strlit("ctx-size");
        lemma_less_at("chat-template-kwargs"@, "ctx-size"@, 1);
    } else if i == 6 {
        reveal_strlit("ctx-size");
        reveal_strlit("device");
        lemma_less_at("ctx-size"@, "device"@, 0);
    } else if i == 7 {
        reveal_strlit("device");
        reveal_strlit("device-draft");
        lemma_less_at("device"@, "device-draft"@, 6);
    }
}

proof fn lemma_order_two(i: int)
    requires
        8 <= i < 16,
    ensures
        text_less(preset_key(i), preset_key(i + 1)),
        is_word(preset_key(i)),
        is_word(preset_key(i + 1)),
{
    if i == 8 {
        reveal_strlit("device-draft");
        reveal_strlit("flash-attn");
        lemma_less_at("device-draft"@, "flash-attn"@, 0);
    } else if i == 9 {
        reveal_strlit("flash-attn");
        reveal_strlit("image-max-tokens");
        lemma_less_at("flash-attn"@, "image-max-tokens"@, 0);
    } else if i == 10 {
        reveal_strlit("image-max-tokens");
        reveal_strlit("image-min-tokens");
        lemma_less_at("image-max-tokens"@, "image-min-tokens"@, 7);
    } else if i == 11 {
        reveal_strlit("image-min-tokens");
        reveal_strlit("jinja");
        lemma_less_at("image-min-tokens"@, "jinja"@, 0);
    } else if i == 12 {
        reveal_strlit("jinja");
        reveal_strlit("min-p");
        lemma_less_at("jinja"@, "min-p"@, 0);
    } else if i == 13 {
        reveal_strlit("min-p");
        reveal_strlit("mmproj");
        lemma_less_at("min-p"@, "mmproj"@, 1);
    } else if i == 14 {
        reveal_strlit("mmproj");
        reveal_strlit("mmproj-offload");
        lemma_less_at("mmproj"@, "mmproj-offload"@, 6);
    } else if i == 15 {
        reveal_strlit("mmproj-offload");
        reveal_strlit("model");
        lemma_less_at("mmproj-offload"@, "model"@, 1);
    }
}

proof fn lemma_order_three(i: int)
    requires
        16 <= i < 24,
    ensures
        text_less(preset_key(i), preset_key(i + 1)),
        is_word(preset_key(i)),
        is_word(preset_key(i + 1)),
{
    if i == 16 {
        reveal_strlit("model");
        reveal_strlit("model-draft");
        lemma_less_at("model"@, "model-draft"@, 5);
    } else if i == 17 {
        reveal_strlit("model-draft");
        reveal_strlit("n-cpu-ffn");
        lemma_less_at("model-draft"@, "n-cpu-ffn"@, 0);
    } else if i == 18 {
        reveal_strlit("n-cpu-ffn");
        reveal_strlit("n-cpu-moe");
        lemma_less_at("n-cpu-ffn"@, "n-cpu-moe"@, 6);
    } else if i == 19 {
        reveal_strlit("n-cpu-moe");
        reveal_strlit("n-gpu-layers");
        lemma_less_at("n-cpu-moe"@, "n-gpu-layers"@, 2);
    } else if i == 20 {
        reveal_strlit("n-gpu-layers");
        reveal_strlit("n-gpu-layers-draft");
        lemma_less_at("n-gpu-layers"@, "n-gpu-layers-draft"@, 12);
    } else if i == 21 {
        reveal_strlit("n-gpu-layers-draft");
        reveal_strlit("n-predict");
        lemma_less_at("n-gpu-layers-draft"@, "n-predict"@, 2);
    } else if i == 22 {
        reveal_strlit("n-predict");
        reveal_strlit("override-tensor");
        lemma_less_at("n-predict"@, "override-tensor"@, 0);
    } else if i == 23 {
        reveal_strlit("override-tensor");
        reveal_strlit("parallel");
        lemma_less_at("override-tensor"@, "parallel"@, 0);
    }
}

proof fn lemma_order_four(i: int)
    requires
        24 <= i < 32,
    ensures
        text_less(preset_key(i), preset_key(i + 1)),
        is_word(preset_key(i)),
        is_word(preset_key(i + 1)),
{
    if i == 24 {
        reveal_strlit("parallel");
        reveal_strlit("presence-penalty");
        lemma_less_at("parallel"@, "presence-penalty"@, 1);
    } else if i == 25 {
        reveal_strlit("presence-penalty");
        reveal_strlit("reasoning");
        lemma_less_at("presence-penalty"@, "reasoning"@, 0);
    } else if i == 26 {
        reveal_strlit("reasoning");
        reveal_strlit("reasoning-budget");
        lemma_less_at("reasoning"@, "reasoning-budget"@, 9);
    } else if i == 27 {
        reveal_strlit("reasoning-budget");
        reveal_strlit("reasoning-budget-message");
        lemma_less_at("reasoning-budget"@, "reasoning-budget-message"@, 16);
    } else if i == 28 {
        reveal_strlit("reasoning-budget-message");
        reveal_strlit("reasoning-effort");
        lemma_less_at("reasoning-budget-message"@, "reasoning-effort"@, 10);
    } else if i == 29 {
        reveal_strlit("reasoning-effort");
        reveal_strlit("reasoning-format");
        lemma_less_at("reasoning-effort"@, "reasoning-format"@, 10);
    } else if i == 30 {
        reveal_strlit("reasoning-format");
        reveal_strlit("reasoning-preserve");
        lemma_less_at("reasoning-format"@, "reasoning-preserve"@, 10);
    } else if i == 31 {
        reveal_strlit("reasoning-preserve");
        reveal_strlit("repeat-penalty");
        lemma_less_at("reasoning-preserve"@, "repeat-penalty"@, 2);
    }
}

proof fn lemma_order_five(i: int)
    requires
        32 <= i < 40,
    ensures
        text_less(preset_key(i), preset_key(i + 1)),
        is_word(preset_key(i)),
        is_word(preset_key(i + 1)),
{
    if i == 32 {
        reveal_strlit("repeat-penalty");
        reveal_strlit("spec-draft-n-max");
        lemma_less_at("repeat-penalty"@, "spec-draft-n-max"@, 0);
    } else if i == 33 {
        reveal_strlit("spec-draft-n-max");
        reveal_strlit("spec-draft-type-k");
        lemma_less_at("spec-draft-n-max"@, "spec-draft-type-k"@, 11);
    } else if i == 34 {
        reveal_strlit("spec-draft-type-k");
        reveal_strlit("spec-draft-type-v");
        lemma_less_at("spec-draft-type-k"@, "spec-draft-type-v"@, 16);
    } else if i == 35 {
        reveal_strlit("spec-draft-type-v");
        reveal_strlit("spec-type");
        lemma_less_at("spec-draft-type-v"@, "spec-type"@, 5);
    } else if i == 36 {
        reveal_strlit("spec-type");
        reveal_strlit("split-mode");
        lemma_less_at("spec-type"@, "split-mode"@, 2);
    } else if i == 37 {
        reveal_strlit("split-mode");
        reveal_strlit("temp");
        lemma_less_at("split-mode"@, "temp"@, 0);
    } else if i == 38 {
        reveal_strlit("temp");
        reveal_strlit("tensor-split");
        lemma_less_at("temp"@, "tensor-split"@, 2);
    } else if i == 39 {
        reveal_strlit("tensor-split");
        reveal_strlit("top-k");
        lemma_less_at("tensor-split"@, "top-k"@, 1);
    }
}

proof fn lemma_order_six(i: int)
    requires
        40 <= i < 42,
    ensures
        text_less(preset_key(i), preset_key(i + 1)),
        is_word(preset_key(i)),
        is_word(preset_key(i + 1)),
{
    if i == 40 {
        reveal_strlit("top-k");
        reveal_strlit("top-p");
        lemma_less_at("top-k"@, "top-p"@, 4);
    } else if i == 41 {
        reveal_strlit("top-p");
        reveal_strlit("ubatch-size");
        lemma_less_at("top-p"@, "ubatch-size"@, 0);
    }
}

proof fn lemma_next_key(i: int)
    requires
        0 <= i < preset_keys() - 1,
    ensures
        text_less(preset_key(i), preset_key(i + 1)),
        is_word(preset_key(i)),
        is_word(preset_key(i + 1)),
{
    if i < 8 {
        lemma_order_one(i);
    } else if i < 16 {
        lemma_order_two(i);
    } else if i < 24 {
        lemma_order_three(i);
    } else if i < 32 {
        lemma_order_four(i);
    } else if i < 40 {
        lemma_order_five(i);
    } else {
        lemma_order_six(i);
    }
}

proof fn lemma_keys_rise(i: int, k: int)
    requires
        0 <= i < k < preset_keys(),
    ensures
        text_less(preset_key(i), preset_key(k)),
    decreases k - i,
{
    lemma_next_key(k - 1);
    if i < k - 1 {
        lemma_keys_rise(i, k - 1);
        lemma_text_less_transitive(preset_key(i), preset_key(k - 1), preset_key(k));
    }
}

/// A preset whose values can stand on lines.
pub open spec fn can_write(p: Preset) -> bool {
    forall|i: int| 0 <= i < preset_keys() ==> writable(#[trigger] preset_value(p, i))
}

pub proof fn lemma_pairs_are_listed(p: Preset)
    requires
        can_write(p),
    ensures
        well_listed(preset_pairs(p)),
{
    let v = preset_pairs(p);
    assert forall|i: int| 0 <= i < v.len() implies plain_key((#[trigger] v[i]).0) by {
        if i < preset_keys() - 1 {
            lemma_next_key(i);
        } else {
            lemma_next_key(i - 1);
        }
        lemma_word_is_key(preset_key(i));
    }
    assert forall|i: int| 0 <= i < v.len() implies writable((#[trigger] v[i]).1) by {
        assert(writable(preset_value(p, i)));
    }
    assert forall|i: int, k: int| 0 <= i < k < v.len() implies text_less(
        (#[trigger] v[i]).0,
        (#[trigger] v[k]).0,
    ) by {
        lemma_keys_rise(i, k);
    }
}

/// A preset that was written reads back: the reader sees its section alone, and a
/// preset that is what this section says is the same as the one that was written.
pub proof fn law_preset_reads_back(p: Preset, q: Preset)
    requires
        can_write(p),
        numerals(p),
        trim(p.id@) == p.id@,
        !p.id@.contains('\n'),
        held_in(q, SectionView { id: p.id@, keys: keys_in(preset_pairs(p)) }),
    ensures
        read(section_of(p.id@, preset_pairs(p))) == seq![
            SectionView { id: p.id@, keys: keys_in(preset_pairs(p)) },
        ],
        q.same(p),
{
    let v = preset_pairs(p);
    lemma_pairs_are_listed(p);
    law_section_reads_back(p.id@, v);
    lemma_nothing_reads();
    assert(v[0] == (preset_key(0), preset_value(p, 0)));
    assert(v[1] == (preset_key(1), preset_value(p, 1)));
    assert(v[2] == (preset_key(2), preset_value(p, 2)));
    assert(v[3] == (preset_key(3), preset_value(p, 3)));
    assert(v[4] == (preset_key(4), preset_value(p, 4)));
    assert(v[5] == (preset_key(5), preset_value(p, 5)));
    assert(v[6] == (preset_key(6), preset_value(p, 6)));
    assert(v[7] == (preset_key(7), preset_value(p, 7)));
    assert(v[8] == (preset_key(8), preset_value(p, 8)));
    assert(v[9] == (preset_key(9), preset_value(p, 9)));
    assert(v[10] == (preset_key(10), preset_value(p, 10)));
    assert(v[11] == (preset_key(11), preset_value(p, 11)));
    assert(v[12] == (preset_key(12), preset_value(p, 12)));
    assert(v[13] == (preset_key(13), preset_value(p, 13)));
    assert(v[14] == (preset_key(14), preset_value(p, 14)));
    assert(v[15] == (preset_key(15), preset_value(p, 15)));
    assert(v[16] == (preset_key(16), preset_value(p, 16)));
    assert(v[17] == (preset_key(17), preset_value(p, 17)));
    assert(v[18] == (preset_key(18), preset_value(p, 18)));
    assert(v[19] == (preset_key(19), preset_value(p, 19)));
    assert(v[20] == (preset_key(20), preset_value(p, 20)));
    assert(v[21] == (preset_key(21), preset_value(p, 21)));
    assert(v[22] == (preset_key(22), preset_value(p, 22)));
    assert(v[23] == (preset_key(23), preset_value(p, 23)));
    assert(v[24] == (preset_key(24), preset_value(p, 24)));
    assert(v[25] == (preset_key(25), preset_value(p, 25)));
    assert(v[26] == (preset_key(26), preset_value(p, 26)));
    assert(v[27] == (preset_key(27), preset_value(p, 27)));
    assert(v[28] == (preset_key(28), preset_value(p, 28)));
    assert(v[29] == (preset_key(29), preset_value(p, 29)));
    assert(v[30] == (preset_key(30), preset_value(p, 30)));
    assert(v[31] == (preset_key(31), preset_value(p, 31)));
    assert(v[32] == (preset_key(32), preset_value(p, 32)));
    assert(v[33] == (preset_key(33), preset_value(p, 33)));
    assert(v[34] == (preset_key(34), preset_value(p, 34)));
    assert(v[35] == (preset_key(35), preset_value(p, 35)));
    assert(v[36] == (preset_key(36), preset_value(p, 36)));
    assert(v[37] == (preset_key(37), preset_value(p, 37)));
    assert(v[38] == (preset_key(38), preset_value(p, 38)));
    assert(v[39] == (preset_key(39), preset_value(p, 39)));
    assert(v[40] == (preset_key(40), preset_value(p, 40)));
    assert(v[41] == (preset_key(41), preset_value(p, 41)));
    assert(v[42] == (preset_key(42), preset_value(p, 42)));
    lemma_flag_reads(p.backend_sampling);
    lemma_number_reads(p.batch_size);
    lemma_number_reads(p.cache_ram);
    lemma_number_reads(p.ctx_size);
    lemma_flag_reads(p.flash_attn);
    lemma_number_reads(p.image_max_tokens);
    lemma_number_reads(p.image_min_tokens);
    lemma_flag_reads(p.jinja);
    lemma_flag_reads(p.mmproj_offload);
    lemma_number_reads(p.n_cpu_ffn);
    lemma_number_reads(p.n_cpu_moe);
    lemma_number_reads(p.n_gpu_layers);
    lemma_number_reads(p.n_gpu_layers_draft);
    lemma_number_reads(p.n_predict);
    lemma_number_reads(p.parallel);
    lemma_number_reads(p.reasoning_budget);
    lemma_flag_reads(p.reasoning_preserve);
    lemma_number_reads(p.spec_draft_n_max);
    lemma_number_reads(p.top_k);
    lemma_number_reads(p.ubatch_size);
}

/// A file with a preset written into it: the reader sees the section of the preset, in
/// the place it had or behind the others, which are as they were.
pub proof fn law_preset_is_saved(text: Seq<char>, p: Preset)
    requires
        can_write(p),
        trim(p.id@) == p.id@,
        !p.id@.contains('\n'),
        ends_at_header(text, p.id@),
    ensures
        ({
            let at = section_at(read(text), p.id@);
            let new = seq![SectionView { id: p.id@, keys: keys_in(preset_pairs(p)) }];
            read(section_set(text, p.id@, section_of(p.id@, preset_pairs(p)))) == if at >= 0 {
                read(text).take(at) + new + read(text).skip(at + 1)
            } else {
                read(text) + new
            }
        }),
{
    lemma_pairs_are_listed(p);
    law_section_is_saved(text, p.id@, preset_pairs(p));
}

/// The value that a sweep finds or puts under a key, as the file has it.
pub open spec fn swept_value(key: SweepKey, p: Preset) -> Seq<char> {
    match key {
        SweepKey::SpecDraftNMax => number_shown(p.spec_draft_n_max),
        SweepKey::SpecType => p.spec_type@,
        SweepKey::ModelDraft => p.model_draft@,
        SweepKey::DeviceDraft => p.device_draft@,
        SweepKey::NGpuLayersDraft => number_shown(p.n_gpu_layers_draft),
        SweepKey::SpecDraftTypeK => p.spec_draft_type_k@,
        SweepKey::SpecDraftTypeV => p.spec_draft_type_v@,
        SweepKey::Device => p.device@,
        SweepKey::TensorSplit => p.tensor_split@,
        SweepKey::SplitMode => p.split_mode@,
        SweepKey::OverrideTensor => p.override_tensor@,
        SweepKey::NGpuLayers => number_shown(p.n_gpu_layers),
        SweepKey::NCpuMoe => number_shown(p.n_cpu_moe),
        SweepKey::CtxSize => number_shown(p.ctx_size),
        SweepKey::BatchSize => number_shown(p.batch_size),
        SweepKey::UbatchSize => number_shown(p.ubatch_size),
        SweepKey::Parallel => number_shown(p.parallel),
        SweepKey::CacheRam => number_shown(p.cache_ram),
        SweepKey::CacheTypeK => p.cache_type_k@,
        SweepKey::CacheTypeV => p.cache_type_v@,
        SweepKey::FlashAttn => flag_shown(p.flash_attn),
        SweepKey::MmprojOffload => flag_shown(p.mmproj_offload),
    }
}

/// Every key that a sweep may set reaches the file: where the preset has a value under
/// it, the section has its line.
pub proof fn law_sweepable_keys_are_written(key: SweepKey, p: Preset)
    ensures
        exists|i: int|
            0 <= i < preset_keys() && #[trigger] preset_pairs(p)[i] == (key.word(), swept_value(key, p)),
        swept_value(key, p).len() > 0 ==> exists|a: Seq<char>, b: Seq<char>|
            section_of(p.id@, preset_pairs(p)) == #[trigger] (a + pair_line(
                key.word(),
                swept_value(key, p),
            ) + b),
{
    let v = preset_pairs(p);
    let i: int = match key {
        SweepKey::SpecDraftNMax => 33,
        SweepKey::SpecType => 36,
        SweepKey::ModelDraft => 17,
        SweepKey::DeviceDraft => 8,
        SweepKey::NGpuLayersDraft => 21,
        SweepKey::SpecDraftTypeK => 34,
        SweepKey::SpecDraftTypeV => 35,
        SweepKey::Device => 7,
        SweepKey::TensorSplit => 39,
        SweepKey::SplitMode => 37,
        SweepKey::OverrideTensor => 23,
        SweepKey::NGpuLayers => 20,
        SweepKey::NCpuMoe => 19,
        SweepKey::CtxSize => 6,
        SweepKey::BatchSize => 1,
        SweepKey::UbatchSize => 42,
        SweepKey::Parallel => 24,
        SweepKey::CacheRam => 2,
        SweepKey::CacheTypeK => 3,
        SweepKey::CacheTypeV => 4,
        SweepKey::FlashAttn => 9,
        SweepKey::MmprojOffload => 15,
    };
    assert(v[i] == (preset_key(i), preset_value(p, i)));
    assert(v[i] == (key.word(), swept_value(key, p)));
    let (a, b) = lemma_line_stands(v, i);
    let head = "["@ + p.id@ + "]\r\n"@;
    assert(section_of(p.id@, v) =~= (head + a) + pair_line(key.word(), swept_value(key, p)) + b);
}

/// The line of every key stands among the lines.
proof fn lemma_line_stands(v: Seq<(Seq<char>, Seq<char>)>, i: int) -> (r: (Seq<char>, Seq<char>))
    requires
        0 <= i < v.len(),
    ensures
        pair_lines(v) == r.0 + pair_line(v[i].0, v[i].1) + r.1,
    decreases v.len(),
{
    let init = v.drop_last();
    let last = pair_line(v.last().0, v.last().1);
    if i == v.len() - 1 {
        let none = Seq::<char>::empty();
        assert(pair_lines(v) =~= pair_lines(init) + last + none);
        (pair_lines(init), none)
    } else {
        let (a, b) = lemma_line_stands(init, i);
        assert(init[i] == v[i]);
        assert(pair_lines(v) =~= a + pair_line(v[i].0, v[i].1) + (b + last));
        (a, b + last)
    }
}

} // verus!
