use llama_cpp_config::integrations::{
    effective_ctx, ensure_provider_section, friendly_model_name, preset_to_opencode_model,
};
use llama_cpp_config::json::{read_json, Json};
use llama_cpp_config::presets::Preset;

/// The value behind a path of keys.
fn at<'a>(v: &'a Json, path: &[&str]) -> &'a Json {
    let mut here = v;
    for key in path {
        here = here
            .get(key)
            .unwrap_or_else(|| panic!("no {key} in {here:?}"));
    }
    here
}

/// The keys of an object.
fn keys(v: &Json) -> Option<Vec<String>> {
    match v {
        Json::Object(m) => Some(m.iter().map(|(k, _)| k.clone()).collect()),
        _ => None,
    }
}

// The merge invariant that keeps hand-edited opencode.json safe: syncing the
// provider section must not touch unrelated top-level keys or other providers.
// (save_opencode_models itself reads global paths, so the merge logic is
// tested here at the ensure_provider_section seam.)
#[test]
fn ensure_provider_section_preserves_unrelated_config() {
    let text = r#"{
        "theme": "dark",
        "provider": {
            "other": { "npm": "@other/sdk", "models": { "x": {} } }
        }
    }"#;
    let v = ensure_provider_section(read_json(text).unwrap(), "http://localhost:8080/v1").unwrap();
    let empty = Vec::<String>::new();
    assert_eq!(at(&v, &["theme"]).as_str(), Some("dark"));
    assert_eq!(
        at(&v, &["provider", "other", "npm"]).as_str(),
        Some("@other/sdk")
    );
    assert_eq!(
        keys(at(&v, &["provider", "other", "models", "x"])),
        Some(empty)
    );
    assert_eq!(
        at(&v, &["provider", "llama.cpp", "npm"]).as_str(),
        Some("@ai-sdk/openai-compatible")
    );
    assert_eq!(
        at(&v, &["provider", "llama.cpp", "options", "baseURL"]).as_str(),
        Some("http://localhost:8080/v1")
    );
    assert!(keys(at(&v, &["provider", "llama.cpp", "models"])).is_some());
}

#[test]
fn ensure_provider_section_updates_base_url_in_place() {
    let v = read_json("{}").unwrap();
    let v = ensure_provider_section(v, "http://localhost:8080/v1").unwrap();
    let v = ensure_provider_section(v, "http://0.0.0.0:9090/v1").unwrap();
    assert_eq!(
        at(&v, &["provider", "llama.cpp", "options", "baseURL"]).as_str(),
        Some("http://0.0.0.0:9090/v1")
    );
}

#[test]
fn opencode_model_reasoning_emitted_only_when_not_auto() {
    let mut p = Preset {
        id: "m".into(),
        model: r"C:\models\m.gguf".into(),
        ..Default::default()
    };
    p.reasoning = "auto".into();
    assert!(preset_to_opencode_model(&p, None)
        .get("reasoning")
        .is_none());
    p.reasoning = "on".into();
    assert!(matches!(
        preset_to_opencode_model(&p, None).get("reasoning"),
        Some(Json::Bool(true))
    ));
    p.reasoning = "off".into();
    assert!(matches!(
        preset_to_opencode_model(&p, None).get("reasoning"),
        Some(Json::Bool(false))
    ));
}

#[test]
fn opencode_model_limit_math() {
    let mut p = Preset {
        id: "m".into(),
        model: r"C:\models\m.gguf".into(),
        parallel: Some(1),
        ..Default::default()
    };
    // Output is a quarter of the advertised context…
    p.ctx_size = Some(131_072);
    let e = preset_to_opencode_model(&p, None);
    assert_eq!(at(&e, &["limit", "context"]).as_i64(), Some(131_072));
    assert_eq!(at(&e, &["limit", "input"]).as_i64(), Some(131_072));
    assert_eq!(at(&e, &["limit", "output"]).as_i64(), Some(32_768));
    // …with a 32k floor, so a small context still advertises a usable reply.
    p.ctx_size = Some(8192);
    let e = preset_to_opencode_model(&p, None);
    assert_eq!(at(&e, &["limit", "context"]).as_i64(), Some(8192));
    assert_eq!(at(&e, &["limit", "output"]).as_i64(), Some(32_000));
}

/// The advertised context is what ONE request may use, and llama.cpp derives
/// that from `ctx-size`, `parallel` AND the model's trained context together.
/// Each case here is a way the old flat `ctx_size.unwrap_or(131072)` lied.
#[test]
fn advertised_context_follows_llama_cpps_slot_math() {
    const TRAINED: Option<u32> = Some(262_144); // Qwen3.6-27B
    const NONE: Option<u32> = None;

    // No ctx-size, no parallel: llama-server auto-parallels (4 slots) with a
    // UNIFIED KV cache, so every slot sees the model's whole trained context.
    assert_eq!(effective_ctx(None, None, TRAINED), 262_144);
    // No ctx-size, parallel pinned: the trained context is now SPLIT. This is
    // the case that made the old hard-coded 131072 look right by accident.
    assert_eq!(effective_ctx(None, Some(2), TRAINED), 131_072);
    assert_eq!(effective_ctx(None, Some(4), TRAINED), 65_536);
    // An explicit ctx-size is split the same way — it is not a per-slot number.
    assert_eq!(effective_ctx(Some(65_536), Some(2), TRAINED), 32_768);
    assert_eq!(effective_ctx(Some(65_536), None, TRAINED), 65_536);
    // ctx-size = 0 is llama.cpp's own "load it from the model".
    assert_eq!(effective_ctx(Some(0), Some(2), TRAINED), 131_072);
    // Asking for more than the model was trained on: the server caps the slot.
    assert_eq!(effective_ctx(Some(1_000_000), Some(1), TRAINED), 262_144);
    // Non-multiples of 256 are padded up, exactly as llama.cpp pads them.
    assert_eq!(effective_ctx(Some(100_000), Some(1), NONE), 100_096);
    // Unreadable GGUF and no ctx-size: nothing to derive from → the fallback.
    assert_eq!(effective_ctx(None, Some(2), NONE), 131_072);
    // …but an explicit ctx-size still works without the header.
    assert_eq!(effective_ctx(Some(32_768), Some(2), NONE), 16_384);
}

#[test]
fn friendly_model_name_cases() {
    // Title-cases the filename stem, separators become spaces.
    assert_eq!(
        friendly_model_name("id", r"C:\m\gemma-4-12b_q6.gguf"),
        "Gemma 4 12b Q6"
    );
    // Caps at 6 words.
    assert_eq!(
        friendly_model_name("id", r"C:\m\a-b-c-d-e-f-g-h.gguf"),
        "A B C D E F"
    );
    // No usable stem falls back to the preset id.
    assert_eq!(friendly_model_name("fallback-id", ""), "Fallback Id");
}
