use std::collections::BTreeSet;

use llama_cpp_config::form::{
    form_to_preset, int_fields, int_problem, invalid_numbers, preset_to_form,
    prune_inactive_draft_fields, PresetForm,
};
use llama_cpp_config::preset_file::render_section;
use llama_cpp_config::presets::Preset;

fn round_trip(p: &Preset) -> Preset {
    form_to_preset(&preset_to_form(p))
}

// The prune's FORM spelling, which is not the schema's: an emptied
// `spec_type` has to come back as the combo's "none" entry (an empty string
// matches no option and leaves the widget showing the old one), the draft KV
// types as the combo's "default" entry for the same reason, and the two
// omit-the-flag companions as their `_default` / `_auto` booleans.
#[test]
fn prune_resets_the_draft_fields_to_their_form_spelling() {
    let mut f = preset_to_form(&Preset {
        spec_type: "draft-mtp".into(),
        spec_draft_n_max: Some(2),
        spec_draft_type_k: "q8_0".into(),
        spec_draft_type_v: "q8_0".into(),
        n_gpu_layers_draft: Some(99),
        device_draft: "CUDA0".into(),
        ctx_size: Some(65536),
        ..Preset::default()
    });
    // Half-typed text in an unrelated field: this runs on every model /
    // mmproj / draft change, i.e. WHILE the user is editing, so the write-back
    // must not launder the rest of the form through form_to_preset.
    f.temp = "1.".into();

    let dropped = prune_inactive_draft_fields(&mut f, false);

    assert_eq!(dropped.len(), 6, "all six keys are dead without a draft");
    assert_eq!(f.spec_type, "none");
    assert!(f.spec_draft_n_max_default);
    // Empty ↔ "default", the EnumComboBox's first entry: an empty string
    // matches no option and would leave q8_0 showing.
    assert_eq!(f.spec_draft_type_k, "default");
    assert_eq!(f.spec_draft_type_v, "default");
    assert!(f.n_gpu_layers_draft_auto);
    assert_eq!(f.device_draft, "");
    assert_eq!(f.ctx_size, "65536", "unrelated field survives");
    assert_eq!(f.temp, "1.", "in-progress text survives");
}

// Nothing to drop → the form must come back byte-identical, or every
// model-info refresh would mark a clean preset dirty.
#[test]
fn prune_leaves_a_clean_form_untouched() {
    let mut f = preset_to_form(&Preset::default());
    f.temp = "1.".into();
    let before = f.clone();
    assert!(prune_inactive_draft_fields(&mut f, false).is_empty());
    assert_eq!(f, before);
}

// A preset in its "saved" shape (string fields non-empty, matching
// `Preset::default()`) survives form ↔ preset unchanged. This is the guard
// for the 7-step "add a preset field" recipe: a field wired into one
// conversion but not the other drops out here.
#[test]
fn default_preset_round_trips() {
    let p = Preset::default();
    assert_eq!(round_trip(&p), p);
}

/// Put `text` in every integer field and untick every "default" box.
fn set_all_int_texts(f: &mut PresetForm, text: &str) {
    for (field, default) in [
        (&mut f.image_min_tokens, &mut f.image_min_tokens_default),
        (&mut f.image_max_tokens, &mut f.image_max_tokens_default),
        (&mut f.spec_draft_n_max, &mut f.spec_draft_n_max_default),
        (&mut f.ctx_size, &mut f.ctx_size_default),
        (&mut f.parallel, &mut f.parallel_default),
        (&mut f.batch_size, &mut f.batch_size_default),
        (&mut f.ubatch_size, &mut f.ubatch_size_default),
        (&mut f.cache_ram, &mut f.cache_ram_default),
        (&mut f.reasoning_budget, &mut f.reasoning_budget_default),
        (&mut f.n_predict, &mut f.n_predict_default),
        (&mut f.top_k, &mut f.top_k_default),
    ] {
        *field = text.into();
        *default = false;
    }
}

// The Save button's refusal and the conversion must agree field by field:
// what the refusal lets through reaches presets.ini, and what it refuses is
// exactly what the conversion drops. A field left out of `set_all_int_texts`
// keeps its ticked box, which the conversion drops and the unfiltered refusal
// passes: it fails here too.
#[test]
fn invalid_numbers_match_what_the_conversion_drops() {
    for text in ["", "  ", "x", "0", "-1", "7", " 42 ", "1.5", "196608245760"] {
        let mut f = preset_to_form(&Preset {
            id: "t".into(),
            ..Preset::default()
        });
        set_all_int_texts(&mut f, text);
        let refused: BTreeSet<&str> = int_fields(&f)
            .iter()
            .filter(|i| int_problem(i.key, i.text, i.least).is_some())
            .map(|i| i.key)
            .collect();
        let section = render_section(&form_to_preset(&f));
        let dropped: BTreeSet<&str> = int_fields(&f)
            .iter()
            .map(|i| i.key)
            .filter(|key| {
                let line = format!("{key} = ");
                !section.lines().any(|l| l.starts_with(&line))
            })
            .collect();
        assert_eq!(refused, dropped, "text {text:?}");
        assert_eq!(invalid_numbers(&f).len(), refused.len(), "text {text:?}");
    }
    // A ticked box is a choice, not a mistake: nothing to refuse.
    let f = preset_to_form(&Preset::default());
    assert!(invalid_numbers(&f).is_empty());
}

// reasoning-preserve is the one TRI-state field: None (key omitted, i.e.
// llama.cpp's own default, which is ON since v0.4.0) is a third value, not
// the absence of one. The two round-trip fixtures above pin
// Some(true)/Some(false); this pins all three at once, and above all that
// None SURVIVES. The bug it guards is the natural simplification
// `Some(f.reasoning_preserve == "on")`, which collapses None to Some(false):
// every preset that never asked would silently start emitting
// --no-reasoning-preserve, i.e. turn the default OFF on every model.
#[test]
fn reasoning_preserve_keeps_all_three_states_apart() {
    for state in [None, Some(true), Some(false)] {
        let p = Preset {
            reasoning_preserve: state,
            ..Preset::default()
        };
        assert_eq!(round_trip(&p).reasoning_preserve, state, "state {state:?}");
    }

    // …and the form spelling is the one the SegmentedControl's `options` list
    // uses; a mismatch here leaves the control with no segment highlighted.
    let spelling = |state| {
        preset_to_form(&Preset {
            reasoning_preserve: state,
            ..Preset::default()
        })
        .reasoning_preserve
        .to_string()
    };
    assert_eq!(spelling(None), "default");
    assert_eq!(spelling(Some(true)), "on");
    assert_eq!(spelling(Some(false)), "off");
}

// The KV-cache card's other three flags have an "unset" that is a real
// instruction too, so it has to survive the form the way reasoning-preserve's
// does. It did not: `cache_type_k/v` fell back to `Preset::default()` (which
// then said q8_0) and `flash_attn` to Some(true) whenever the key was absent,
// so a preset that had never named a cache type DISPLAYED q8_0 and, on the next
// save of any unrelated field, WROTE q8_0, quietly requantizing a KV cache
// llama.cpp would have left at f16. The empty/None state must reach the form as
// "default" and come back out empty/None.
#[test]
fn kv_cache_unset_state_survives_the_form_round_trip() {
    let unset = Preset {
        cache_type_k: String::new(),
        cache_type_v: String::new(),
        flash_attn: None,
        ..Preset::default()
    };
    let back = round_trip(&unset);
    assert_eq!(back.cache_type_k, "", "cache-type-k invented a value");
    assert_eq!(back.cache_type_v, "", "cache-type-v invented a value");
    assert_eq!(back.flash_attn, None, "flash-attn invented a value");

    // …and the form spellings are the ones the widgets' option lists use; a
    // mismatch leaves the ComboBox on its first row / the SegmentedControl with
    // no pill lit. "default" is `Options.cache_types[0]` and the first pill.
    let f = preset_to_form(&unset);
    assert_eq!(f.cache_type_k, "default");
    assert_eq!(f.cache_type_v, "default");
    assert_eq!(f.flash_attn, "default");

    // An explicit choice is still an explicit choice, including "off", which
    // is NOT the same as unset (it passes --flash-attn off, forcing the kernel
    // away even where the backend has it).
    for state in [None, Some(true), Some(false)] {
        let p = Preset {
            flash_attn: state,
            ..Preset::default()
        };
        assert_eq!(round_trip(&p).flash_attn, state, "flash-attn {state:?}");
    }
}

#[test]
fn rich_preset_round_trips() {
    let p = Preset {
        id: "round".into(),
        model: r"E:\m\model.gguf".into(),
        mmproj: r"E:\mmprojs\clip.gguf".into(),
        mmproj_offload: Some(false),
        image_min_tokens: Some(1024),
        image_max_tokens: Some(2048),
        model_draft: r"E:\mtps\model-mtp.gguf".into(),
        spec_type: "draft-mtp".into(),
        spec_draft_n_max: Some(10),
        // Not the cache_type_k/-v below: the draft cache is its own setting.
        spec_draft_type_k: "q4_0".into(),
        spec_draft_type_v: "q4_1".into(),
        n_gpu_layers_draft: Some(99),
        device_draft: "CUDA0".into(),
        device: "CUDA0,ROCm1".into(),
        split_mode: "row".into(),
        tensor_split: "3,1".into(),
        override_tensor: r"token_embd\.weight=ROCm0".into(),
        ctx_size: Some(65536),
        n_gpu_layers: Some(40),
        parallel: Some(2),
        batch_size: Some(1024),
        ubatch_size: Some(256),
        cache_type_k: "f16".into(),
        cache_type_v: "q8_0".into(),
        flash_attn: Some(false),
        cache_ram: Some(4096),
        jinja: Some(false),
        reasoning: "on".into(),
        reasoning_format: "deepseek".into(),
        reasoning_effort: "xhigh".into(),
        reasoning_preserve: Some(true),
        reasoning_budget: Some(16384),
        reasoning_budget_message: "Budget reached, write the final answer now.".into(),
        n_predict: Some(24576),
        n_cpu_moe: Some(12),
        n_cpu_ffn: Some(4),
        temp: Some("0.7".into()),
        top_k: Some(40),
        top_p: Some("0.95".into()),
        min_p: Some("0.05".into()),
        repeat_penalty: Some("1.1".into()),
        presence_penalty: Some("0.5".into()),
        backend_sampling: Some(true),
        chat_template_kwargs: r#"{"enable_thinking":true}"#.into(),
    };
    assert_eq!(round_trip(&p), p);
}

// backend-sampling is the third tri-state (after reasoning-preserve and
// flash-attn) and the one where the collapse would be least visible: the
// flag has no negated form, so `Some(false)` and `None` launch identically
// and a form that turned "default" into "off" would corrupt every preset's
// INI without changing a single argv. Pin all three states and the
// SegmentedControl spellings.
#[test]
fn backend_sampling_keeps_all_three_states_apart() {
    for state in [None, Some(true), Some(false)] {
        let p = Preset {
            backend_sampling: state,
            ..Preset::default()
        };
        assert_eq!(round_trip(&p).backend_sampling, state, "state {state:?}");
    }
    let spelling = |state| {
        preset_to_form(&Preset {
            backend_sampling: state,
            ..Preset::default()
        })
        .backend_sampling
        .to_string()
    };
    assert_eq!(spelling(None), "default");
    assert_eq!(spelling(Some(true)), "on");
    assert_eq!(spelling(Some(false)), "off");
}

// "0 disables, -1 = no limit": the documented --cache-ram sentinels must
// survive the form leg (a `> 0` filter here once silently dropped them,
// falling back to llama-server's 8192 MiB default).
#[test]
fn cache_ram_sentinels_round_trip() {
    for v in [0, -1] {
        let p = Preset {
            cache_ram: Some(v),
            ..Preset::default()
        };
        assert_eq!(round_trip(&p).cache_ram, Some(v));
    }
}

// Same trap, two more fields: `-1` is "unrestricted" for --reasoning-budget
// and "until the context is full" for --n-predict, and `0` closes the
// thinking block immediately. A `> 0` filter copied from the neighbouring
// integers would silently turn each of those into "key absent", which is a
// DIFFERENT instruction: it hands the thinking back its unlimited default.
#[test]
fn reasoning_budget_and_n_predict_sentinels_round_trip() {
    for v in [0, -1, 16384] {
        let p = Preset {
            reasoning_budget: Some(v),
            n_predict: Some(v),
            ..Preset::default()
        };
        let back = round_trip(&p);
        assert_eq!(back.reasoning_budget, Some(v), "reasoning-budget {v}");
        assert_eq!(back.n_predict, Some(v), "n-predict {v}");
    }
}

// The message is free text that reaches the model verbatim, so it must not be
// laundered on the way through the form (trimmed, quoted, or collapsed to
// empty): what the user typed is what gets injected before the end tag.
#[test]
fn reasoning_budget_message_survives_verbatim() {
    let msg = "Budget reached. Stop analysing and write the final answer now.";
    let p = Preset {
        reasoning_budget_message: msg.into(),
        ..Preset::default()
    };
    assert_eq!(round_trip(&p).reasoning_budget_message, msg);
}
