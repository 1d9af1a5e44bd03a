//! What each control of the form shows and sets, and what each flag changes.
use vstd::prelude::*;
use vstd::string::*;
use crate::cli::{in_column, shown_rows, ServerSet};
use crate::decimal::decimal_read;
use crate::form::{int_at_least, int_fields_of, problems, reads, shows, PresetForm};
use crate::presets::{drafts, set_draft_keys, Preset};
use crate::server_cfg::ServerConfig;
use crate::sweep_laws::lemma_dec_int_shape;
use crate::text::{dec_int, lemma_parse_dec_int, opt, trim};

verus! {

// ── The form ─────────────────────────────────────────────────────────────

/// Whether a control shows a number of a preset: its numeral with the "default" box
/// clear, or the box ticked.
pub open spec fn shows_number(text: Seq<char>, ticked: bool, v: Option<i32>) -> bool {
    match v {
        Some(n) => !ticked && text == dec_int(n as int),
        None => ticked,
    }
}

/// Whether a control shows a decimal number of a preset.
pub open spec fn shows_decimal(text: Seq<char>, ticked: bool, v: Option<String>) -> bool {
    match v {
        Some(s) => !ticked && text == s@,
        None => ticked,
    }
}

/// Whether a list shows a choice of a preset: the text itself, or the word for none.
pub open spec fn shows_choice(text: Seq<char>, word: Seq<char>, v: Seq<char>) -> bool {
    if v.len() > 0 {
        text == v
    } else {
        text == word
    }
}

/// Whether a list of three shows a flag of a preset.
pub open spec fn shows_flag(text: Seq<char>, v: Option<bool>) -> bool {
    match v {
        Some(true) => text == "on"@,
        Some(false) => text == "off"@,
        None => text == "default"@,
    }
}

/// Whether a slider shows a number of a preset.
pub open spec fn shows_slider(at: i32, auto: bool, v: Option<i32>) -> bool {
    match v {
        Some(n) => !auto && at == n,
        None => auto,
    }
}

/// Every control of a form shows the setting that it is named after.
pub proof fn law_controls_show_their_settings(f: PresetForm, p: Preset)
    requires
        shows(f, p),
    ensures
        f.id@ == p.id@,
        f.model@ == p.model@,
        f.mmproj@ == p.mmproj@,
        f.model_draft@ == p.model_draft@,
        f.device_draft@ == p.device_draft@,
        f.device@ == p.device@,
        f.tensor_split@ == p.tensor_split@,
        f.override_tensor@ == p.override_tensor@,
        f.reasoning_budget_message@ == p.reasoning_budget_message@,
        f.chat_template_kwargs@ == p.chat_template_kwargs@,
        shows_number(f.image_min_tokens@, f.image_min_tokens_default, p.image_min_tokens),
        shows_number(f.image_max_tokens@, f.image_max_tokens_default, p.image_max_tokens),
        shows_number(f.spec_draft_n_max@, f.spec_draft_n_max_default, p.spec_draft_n_max),
        shows_number(f.ctx_size@, f.ctx_size_default, p.ctx_size),
        shows_number(f.parallel@, f.parallel_default, p.parallel),
        shows_number(f.batch_size@, f.batch_size_default, p.batch_size),
        shows_number(f.ubatch_size@, f.ubatch_size_default, p.ubatch_size),
        shows_number(f.cache_ram@, f.cache_ram_default, p.cache_ram),
        shows_number(f.reasoning_budget@, f.reasoning_budget_default, p.reasoning_budget),
        shows_number(f.n_predict@, f.n_predict_default, p.n_predict),
        shows_number(f.top_k@, f.top_k_default, p.top_k),
        shows_decimal(f.temp@, f.temp_default, p.temp),
        shows_decimal(f.top_p@, f.top_p_default, p.top_p),
        shows_decimal(f.min_p@, f.min_p_default, p.min_p),
        shows_decimal(f.repeat_penalty@, f.repeat_penalty_default, p.repeat_penalty),
        shows_decimal(f.presence_penalty@, f.presence_penalty_default, p.presence_penalty),
        shows_choice(f.spec_type@, "none"@, p.spec_type@),
        shows_choice(f.spec_draft_type_k@, "default"@, p.spec_draft_type_k@),
        shows_choice(f.spec_draft_type_v@, "default"@, p.spec_draft_type_v@),
        shows_choice(f.split_mode@, "default"@, p.split_mode@),
        shows_choice(f.cache_type_k@, "default"@, p.cache_type_k@),
        shows_choice(f.cache_type_v@, "default"@, p.cache_type_v@),
        shows_choice(f.reasoning_effort@, "default"@, p.reasoning_effort@),
        shows_choice(f.reasoning@, "auto"@, p.reasoning@),
        shows_choice(f.reasoning_format@, "auto"@, p.reasoning_format@),
        shows_flag(f.flash_attn@, p.flash_attn),
        shows_flag(f.reasoning_preserve@, p.reasoning_preserve),
        shows_flag(f.backend_sampling@, p.backend_sampling),
        shows_slider(f.n_gpu_layers, f.n_gpu_layers_auto, p.n_gpu_layers),
        shows_slider(f.n_gpu_layers_draft, f.n_gpu_layers_draft_auto, p.n_gpu_layers_draft),
        shows_slider(f.n_cpu_moe, f.n_cpu_moe_auto, p.n_cpu_moe),
        shows_slider(f.n_cpu_ffn, f.n_cpu_ffn_auto, p.n_cpu_ffn),
        p.mmproj_offload == Some(false) <==> !f.mmproj_offload,
        p.jinja == Some(false) <==> !f.jinja,
{
}

/// Whether a control that takes numbers from a least one on sets the number of a preset:
/// to the number typed, and to none where the box is ticked or the number is less.
pub open spec fn sets_number(v: Option<i32>, text: Seq<char>, ticked: bool, least: int) -> bool {
    &&& ticked ==> v is None
    &&& !ticked ==> forall|n: i32|
        text == #[trigger] dec_int(n as int) ==> v == if n >= least {
            Some(n)
        } else {
            None
        }
    &&& !ticked && trim(text).len() == 0 ==> v is None
}

proof fn lemma_sets_number(v: Option<i32>, text: Seq<char>, ticked: bool, least: int)
    requires
        ticked ==> v is None,
        !ticked ==> match v {
            Some(n) => int_at_least(text, least) == Some(n as int),
            None => int_at_least(text, least) is None,
        },
    ensures
        sets_number(v, text, ticked, least),
{
    if !ticked {
        assert forall|n: i32| text == #[trigger] dec_int(n as int) implies v == (if n >= least {
            Some(n)
        } else {
            None
        }) by {
            lemma_dec_int_shape(n as int);
            lemma_parse_dec_int(n as int, i32::MIN as int, i32::MAX as int);
        }
    }
}

/// Whether a control sets a decimal number of a preset.
pub open spec fn sets_decimal(v: Option<String>, text: Seq<char>, ticked: bool) -> bool {
    if ticked {
        v is None
    } else {
        opt(v) == decimal_read(text)
    }
}

/// Whether a list sets a choice of a preset: the word for none sets none.
pub open spec fn sets_choice(v: Seq<char>, text: Seq<char>, word: Seq<char>) -> bool {
    if text == word {
        v.len() == 0
    } else {
        v == text
    }
}

/// Whether a list of three sets a flag of a preset.
pub open spec fn sets_flag(v: Option<bool>, text: Seq<char>) -> bool {
    &&& text == "on"@ <==> v == Some(true)
    &&& text == "off"@ <==> v == Some(false)
}

/// Whether a slider sets a number of a preset.
pub open spec fn sets_slider(v: Option<i32>, at: i32, auto: bool) -> bool {
    if auto {
        v is None
    } else {
        v == Some(at)
    }
}

/// Every control of a form sets the setting that it is named after, and nothing else
/// does. Fields for sizes and counts take numbers from 1 on; the others take any.
pub proof fn law_controls_set_their_settings(p: Preset, f: PresetForm)
    requires
        reads(p, f),
    ensures
        p.id@ == f.id@,
        p.model@ == f.model@,
        p.mmproj@ == f.mmproj@,
        p.model_draft@ == f.model_draft@,
        p.device_draft@ == f.device_draft@,
        p.device@ == f.device@,
        p.tensor_split@ == f.tensor_split@,
        p.override_tensor@ == f.override_tensor@,
        p.reasoning_budget_message@ == f.reasoning_budget_message@,
        p.chat_template_kwargs@ == f.chat_template_kwargs@,
        sets_number(p.image_min_tokens, f.image_min_tokens@, f.image_min_tokens_default, 1),
        sets_number(p.image_max_tokens, f.image_max_tokens@, f.image_max_tokens_default, 1),
        sets_number(p.spec_draft_n_max, f.spec_draft_n_max@, f.spec_draft_n_max_default, 1),
        sets_number(p.ctx_size, f.ctx_size@, f.ctx_size_default, 1),
        sets_number(p.parallel, f.parallel@, f.parallel_default, 1),
        sets_number(p.batch_size, f.batch_size@, f.batch_size_default, 1),
        sets_number(p.ubatch_size, f.ubatch_size@, f.ubatch_size_default, 1),
        sets_number(p.cache_ram, f.cache_ram@, f.cache_ram_default, i32::MIN as int),
        sets_number(p.reasoning_budget, f.reasoning_budget@, f.reasoning_budget_default, i32::MIN as int),
        sets_number(p.n_predict, f.n_predict@, f.n_predict_default, i32::MIN as int),
        sets_number(p.top_k, f.top_k@, f.top_k_default, i32::MIN as int),
        sets_decimal(p.temp, f.temp@, f.temp_default),
        sets_decimal(p.top_p, f.top_p@, f.top_p_default),
        sets_decimal(p.min_p, f.min_p@, f.min_p_default),
        sets_decimal(p.repeat_penalty, f.repeat_penalty@, f.repeat_penalty_default),
        sets_decimal(p.presence_penalty, f.presence_penalty@, f.presence_penalty_default),
        sets_choice(p.spec_type@, f.spec_type@, "none"@),
        sets_choice(p.spec_draft_type_k@, f.spec_draft_type_k@, "default"@),
        sets_choice(p.spec_draft_type_v@, f.spec_draft_type_v@, "default"@),
        sets_choice(p.split_mode@, f.split_mode@, "default"@),
        sets_choice(p.cache_type_k@, f.cache_type_k@, "default"@),
        sets_choice(p.cache_type_v@, f.cache_type_v@, "default"@),
        sets_choice(p.reasoning_effort@, f.reasoning_effort@, "default"@),
        p.reasoning@ == f.reasoning@,
        p.reasoning_format@ == f.reasoning_format@,
        sets_flag(p.flash_attn, f.flash_attn@),
        sets_flag(p.reasoning_preserve, f.reasoning_preserve@),
        sets_flag(p.backend_sampling, f.backend_sampling@),
        sets_slider(p.n_gpu_layers, f.n_gpu_layers, f.n_gpu_layers_auto),
        sets_slider(p.n_gpu_layers_draft, f.n_gpu_layers_draft, f.n_gpu_layers_draft_auto),
        sets_slider(p.n_cpu_moe, f.n_cpu_moe, f.n_cpu_moe_auto),
        sets_slider(p.n_cpu_ffn, f.n_cpu_ffn, f.n_cpu_ffn_auto),
        p.mmproj_offload == Some(f.mmproj_offload),
        p.jinja == Some(f.jinja),
{
    reveal_strlit("on");
    reveal_strlit("off");
    assert("on"@.len() != "off"@.len());
    lemma_sets_number(p.image_min_tokens, f.image_min_tokens@, f.image_min_tokens_default, 1);
    lemma_sets_number(p.image_max_tokens, f.image_max_tokens@, f.image_max_tokens_default, 1);
    lemma_sets_number(p.spec_draft_n_max, f.spec_draft_n_max@, f.spec_draft_n_max_default, 1);
    lemma_sets_number(p.ctx_size, f.ctx_size@, f.ctx_size_default, 1);
    lemma_sets_number(p.parallel, f.parallel@, f.parallel_default, 1);
    lemma_sets_number(p.batch_size, f.batch_size@, f.batch_size_default, 1);
    lemma_sets_number(p.ubatch_size, f.ubatch_size@, f.ubatch_size_default, 1);
    lemma_sets_number(p.cache_ram, f.cache_ram@, f.cache_ram_default, i32::MIN as int);
    lemma_sets_number(p.reasoning_budget, f.reasoning_budget@, f.reasoning_budget_default, i32::MIN as int);
    lemma_sets_number(p.n_predict, f.n_predict@, f.n_predict_default, i32::MIN as int);
    lemma_sets_number(p.top_k, f.top_k@, f.top_k_default, i32::MIN as int);
}

/// A save is refused exactly where a field with its box clear holds no number that it
/// takes.
pub proof fn law_refused_fields(f: PresetForm)
    ensures
        problems(int_fields_of(f)).len() == 0 <==> {
            &&& f.image_min_tokens_default || int_at_least(f.image_min_tokens@, 1) is Some
            &&& f.image_max_tokens_default || int_at_least(f.image_max_tokens@, 1) is Some
            &&& f.spec_draft_n_max_default || int_at_least(f.spec_draft_n_max@, 1) is Some
            &&& f.ctx_size_default || int_at_least(f.ctx_size@, 1) is Some
            &&& f.parallel_default || int_at_least(f.parallel@, 1) is Some
            &&& f.batch_size_default || int_at_least(f.batch_size@, 1) is Some
            &&& f.ubatch_size_default || int_at_least(f.ubatch_size@, 1) is Some
            &&& f.cache_ram_default || int_at_least(f.cache_ram@, i32::MIN as int) is Some
            &&& f.reasoning_budget_default || int_at_least(f.reasoning_budget@, i32::MIN as int) is Some
            &&& f.n_predict_default || int_at_least(f.n_predict@, i32::MIN as int) is Some
            &&& f.top_k_default || int_at_least(f.top_k@, i32::MIN as int) is Some
        },
{
    let v = int_fields_of(f);
    lemma_no_problems(v);
    assert(v[0].text == f.image_min_tokens@ && v[0].unset == f.image_min_tokens_default);
    assert(v[1].text == f.image_max_tokens@ && v[1].unset == f.image_max_tokens_default);
    assert(v[2].text == f.spec_draft_n_max@ && v[2].unset == f.spec_draft_n_max_default);
    assert(v[3].text == f.ctx_size@ && v[3].unset == f.ctx_size_default);
    assert(v[4].text == f.parallel@ && v[4].unset == f.parallel_default);
    assert(v[5].text == f.batch_size@ && v[5].unset == f.batch_size_default);
    assert(v[6].text == f.ubatch_size@ && v[6].unset == f.ubatch_size_default);
    assert(v[7].text == f.cache_ram@ && v[7].unset == f.cache_ram_default);
    assert(v[8].text == f.reasoning_budget@ && v[8].unset == f.reasoning_budget_default);
    assert(v[9].text == f.n_predict@ && v[9].unset == f.n_predict_default);
    assert(v[10].text == f.top_k@ && v[10].unset == f.top_k_default);
}

proof fn lemma_no_problems(v: Seq<crate::form::IntFieldView>)
    ensures
        problems(v).len() == 0 <==> forall|i: int|
            0 <= i < v.len() ==> (#[trigger] v[i]).unset || int_at_least(v[i].text, v[i].least) is Some,
    decreases v.len(),
{
    if v.len() > 0 {
        let init = v.drop_last();
        lemma_no_problems(init);
        assert(v[v.len() - 1] == v.last());
        if problems(v).len() == 0 {
            assert forall|i: int| 0 <= i < v.len() implies (#[trigger] v[i]).unset || int_at_least(
                v[i].text,
                v[i].least,
            ) is Some by {
                if i < init.len() {
                    assert(init[i] == v[i]);
                }
            }
        }
        if forall|i: int|
            0 <= i < v.len() ==> (#[trigger] v[i]).unset || int_at_least(v[i].text, v[i].least) is Some {
            assert forall|i: int| 0 <= i < init.len() implies (#[trigger] init[i]).unset || int_at_least(
                init[i].text,
                init[i].least,
            ) is Some by {
                assert(init[i] == v[i]);
            }
        }
    }
}

// ── Draft keys ───────────────────────────────────────────────────────────

/// A model drafts where a draft model is named or one is built in, and only there.
pub proof fn law_what_drafts(p: Preset)
    ensures
        drafts(p, true),
        drafts(p, false) <==> p.model_draft@.len() > 0,
{
}

/// The keys that are told are those that were set, by their names.
pub proof fn law_set_keys_are_named(p: Preset)
    ensures
        p.spec_type@.len() > 0 <==> set_draft_keys(p).contains("spec-type"@),
        p.spec_draft_n_max is Some <==> set_draft_keys(p).contains("spec-draft-n-max"@),
        p.spec_draft_type_k@.len() > 0 <==> set_draft_keys(p).contains("spec-draft-type-k"@),
        p.spec_draft_type_v@.len() > 0 <==> set_draft_keys(p).contains("spec-draft-type-v"@),
        p.n_gpu_layers_draft is Some <==> set_draft_keys(p).contains("n-gpu-layers-draft"@),
        p.device_draft@.len() > 0 <==> set_draft_keys(p).contains("device-draft"@),
        set_draft_keys(p).len() == 0 <==> p.spec_type@.len() == 0 && p.spec_draft_n_max is None
            && p.spec_draft_type_k@.len() == 0 && p.spec_draft_type_v@.len() == 0
            && p.n_gpu_layers_draft is None && p.device_draft@.len() == 0,
{
    reveal_strlit("spec-type");
    reveal_strlit("spec-draft-n-max");
    reveal_strlit("spec-draft-type-k");
    reveal_strlit("spec-draft-type-v");
    reveal_strlit("n-gpu-layers-draft");
    reveal_strlit("device-draft");
    assert("spec-draft-type-k"@[16] == 'k' && "spec-draft-type-v"@[16] == 'v');
    assert("spec-type"@.len() == 9 && "spec-draft-n-max"@.len() == 16 && "spec-draft-type-k"@.len() == 17
        && "spec-draft-type-v"@.len() == 17 && "n-gpu-layers-draft"@.len() == 18 && "device-draft"@.len()
        == 12);
    let none = Seq::<Seq<char>>::empty();
    let a = if p.spec_type@.len() > 0 {
        seq!["spec-type"@]
    } else {
        none
    };
    assert(a =~= if p.spec_type@.len() > 0 {
        none.push("spec-type"@)
    } else {
        none
    });
    lemma_push_contains(none, "spec-type"@);
    let b = if p.spec_draft_n_max is Some {
        a.push("spec-draft-n-max"@)
    } else {
        a
    };
    let c = if p.spec_draft_type_k@.len() > 0 {
        b.push("spec-draft-type-k"@)
    } else {
        b
    };
    let d = if p.spec_draft_type_v@.len() > 0 {
        c.push("spec-draft-type-v"@)
    } else {
        c
    };
    let e = if p.n_gpu_layers_draft is Some {
        d.push("n-gpu-layers-draft"@)
    } else {
        d
    };
    lemma_push_contains(a, "spec-draft-n-max"@);
    lemma_push_contains(b, "spec-draft-type-k"@);
    lemma_push_contains(c, "spec-draft-type-v"@);
    lemma_push_contains(d, "n-gpu-layers-draft"@);
    lemma_push_contains(e, "device-draft"@);
}

proof fn lemma_push_contains(v: Seq<Seq<char>>, x: Seq<char>)
    ensures
        v.push(x).contains(x),
        forall|y: Seq<char>| y != x ==> (#[trigger] v.push(x).contains(y) <==> v.contains(y)),
{
    let w = v.push(x);
    assert(w[v.len() as int] == x);
    assert forall|y: Seq<char>| y != x implies (#[trigger] w.contains(y) <==> v.contains(y)) by {
        if w.contains(y) {
            let i = choose|i: int| 0 <= i < w.len() && w[i] == y;
            assert(v[i] == y);
        }
        if v.contains(y) {
            let i = choose|i: int| 0 <= i < v.len() && v[i] == y;
            assert(w[i] == y);
        }
    }
}

// ── The flags of the command line ────────────────────────────────────────

/// Whether a flag with a text sets a setting: a blank one clears it, none leaves it.
pub open spec fn flag_sets_text(flag: Option<String>, now: Option<String>, was: Option<String>) -> bool {
    match flag {
        Some(s) => if trim(s@).len() > 0 {
            opt(now) == Some(s@)
        } else {
            now is None
        },
        None => opt(now) == opt(was),
    }
}

/// Whether a flag with a count sets a setting: one that is not positive clears it.
pub open spec fn flag_sets_count(flag: Option<i32>, now: Option<i32>, was: Option<i32>) -> bool {
    match flag {
        Some(n) => if n >= 1 {
            now == Some(n)
        } else {
            now is None
        },
        None => now == was,
    }
}

/// Whether a flag with a value sets a setting.
pub open spec fn flag_sets<T>(flag: Option<T>, now: Option<T>, was: Option<T>) -> bool {
    match flag {
        Some(v) => now == Some(v),
        None => now == was,
    }
}

/// Every flag that is given changes the setting that it is named after, and every
/// setting without its flag stays.
pub proof fn law_flags_set_their_settings(set: ServerSet, now: ServerConfig, was: ServerConfig)
    requires
        set.applied(now, was),
    ensures
        flag_sets(set.port, now.port, was.port),
        flag_sets(set.models_max, now.models_max, was.models_max),
        flag_sets(set.log_verbosity, now.log_verbosity, was.log_verbosity),
        flag_sets(set.mlock, now.mlock, was.mlock),
        flag_sets(set.no_mmap, now.no_mmap, was.no_mmap),
        flag_sets(set.webui_mcp_proxy, now.webui_mcp_proxy, was.webui_mcp_proxy),
        flag_sets(set.fit, now.fit, was.fit),
        flag_sets(set.prefill_assistant, now.prefill_assistant, was.prefill_assistant),
        flag_sets_count(set.threads, now.threads, was.threads),
        flag_sets_count(set.cache_reuse, now.cache_reuse, was.cache_reuse),
        flag_sets_count(set.threads_batch, now.threads_batch, was.threads_batch),
        flag_sets_text(set.hostname, now.hostname, was.hostname),
        flag_sets_text(set.models_dir, now.models_dir, was.models_dir),
        flag_sets_text(set.device, now.device, was.device),
        flag_sets_text(set.split_mode, now.split_mode, was.split_mode),
        flag_sets_text(set.tensor_split, now.tensor_split, was.tensor_split),
        flag_sets_text(set.override_tensor, now.override_tensor, was.override_tensor),
        flag_sets_text(set.mmproj_device, now.mmproj_device, was.mmproj_device),
        flag_sets_text(set.opencode_base_url, now.opencode_base_url, was.opencode_base_url),
        flag_sets_text(set.opencode_api_key, now.opencode_api_key, was.opencode_api_key),
{
}

/// Whether a row of the listing shows a value under a label.
pub open spec fn is_row(row: Seq<char>, label: Seq<char>, value: Seq<char>) -> bool {
    row == "  "@ + in_column(label, 18) + " "@ + value + "\n"@
}

/// The listing shows every setting under its label.
pub proof fn law_listing_shows_settings(cfg: ServerConfig)
    ensures
        shown_rows(cfg).len() == 20,
        cfg.port matches Some(n) ==> is_row(shown_rows(cfg)[0], "Port:"@, dec_int(n as int)),
        cfg.hostname matches Some(s) ==> is_row(shown_rows(cfg)[1], "Hostname:"@, s@),
        cfg.mlock == Some(true) ==> is_row(shown_rows(cfg)[2], "Mlock:"@, "true"@),
        cfg.mlock == Some(false) ==> is_row(shown_rows(cfg)[2], "Mlock:"@, "false"@),
        cfg.no_mmap == Some(true) ==> is_row(shown_rows(cfg)[3], "NoMmap:"@, "true"@),
        cfg.no_mmap == Some(false) ==> is_row(shown_rows(cfg)[3], "NoMmap:"@, "false"@),
        cfg.threads matches Some(n) ==> is_row(shown_rows(cfg)[4], "Threads:"@, dec_int(n as int)),
        cfg.cache_reuse matches Some(n) ==> is_row(shown_rows(cfg)[5], "CacheReuse:"@, dec_int(n as int)),
        cfg.threads_batch matches Some(n) ==> is_row(shown_rows(cfg)[6], "ThreadsBatch:"@, dec_int(n as int)),
        cfg.models_max matches Some(n) ==> is_row(shown_rows(cfg)[7], "ModelsMax:"@, dec_int(n as int)),
        cfg.models_dir matches Some(s) ==> is_row(shown_rows(cfg)[8], "ModelsDir:"@, s@),
        cfg.device matches Some(s) ==> is_row(shown_rows(cfg)[9], "Device:"@, s@),
        cfg.split_mode matches Some(s) ==> is_row(shown_rows(cfg)[10], "SplitMode:"@, s@),
        cfg.tensor_split matches Some(s) ==> is_row(shown_rows(cfg)[11], "TensorSplit:"@, s@),
        cfg.override_tensor matches Some(s) ==> is_row(shown_rows(cfg)[12], "OverrideTensor:"@, s@),
        cfg.mmproj_device matches Some(s) ==> is_row(shown_rows(cfg)[13], "MmprojDevice:"@, s@),
        cfg.webui_mcp_proxy == Some(true) ==> is_row(shown_rows(cfg)[14], "WebuiMcpProxy:"@, "true"@),
        cfg.webui_mcp_proxy == Some(false) ==> is_row(shown_rows(cfg)[14], "WebuiMcpProxy:"@, "false"@),
        cfg.fit == Some(true) ==> is_row(shown_rows(cfg)[15], "Fit:"@, "true"@),
        cfg.fit == Some(false) ==> is_row(shown_rows(cfg)[15], "Fit:"@, "false"@),
        cfg.prefill_assistant == Some(true) ==> is_row(shown_rows(cfg)[16], "PrefillAssistant:"@, "true"@),
        cfg.prefill_assistant == Some(false) ==> is_row(shown_rows(cfg)[16], "PrefillAssistant:"@, "false"@),
        cfg.log_verbosity matches Some(n) ==> is_row(shown_rows(cfg)[17], "LogVerbosity:"@, dec_int(n as int)),
        cfg.opencode_base_url matches Some(s) ==> is_row(shown_rows(cfg)[18], "OpencodeBaseUrl:"@, s@),
        cfg.opencode_api_key matches Some(s) ==> is_row(shown_rows(cfg)[19], "OpencodeApiKey:"@, s@),
{
}

} // verus!
