use llama_cpp_config::integrations::{
    claude_code_env_script, detect_opencode_provider, effective_ctx, friendly_model_name,
    merge_opencode, opencode_model_ids, pad_256, save_opencode_models,
};
use llama_cpp_config::json::{read_json, Json};
use llama_cpp_config::presets::Preset;

fn preset(id: &str, model: &str) -> Preset {
    Preset {
        id: id.into(),
        model: model.into(),
        ..Default::default()
    }
}

#[test]
fn the_wanted_presets_replace_the_list_and_the_rest_of_the_file_stays() {
    let before = r#"{"theme":"dark","provider":{"llama.cpp":{"models":{"old":{}},"extra":1}}}"#;
    let all = [preset("a", r"C:\m\qwen-3_q8.gguf"), preset("b", "b.gguf")];
    let ids = ["b".to_string(), "a".to_string(), "gone".to_string()];
    let text = save_opencode_models(before, "http://h:1/v1", &ids, &all, &[Some(4096), Some(0)]).unwrap();
    assert!(text.ends_with("}\n"));
    assert_eq!(opencode_model_ids(&text), ["a", "b"]);
    assert!(detect_opencode_provider(&text));
    let v: serde_json::Value = serde_json::from_str(&text).unwrap();
    assert_eq!(v["theme"], "dark");
    let section = &v["provider"]["llama.cpp"];
    assert_eq!(section["extra"], 1);
    assert_eq!(section["options"]["baseURL"], "http://h:1/v1");
    assert_eq!(section["models"]["a"]["name"], "Qwen 3 Q8");
    assert_eq!(section["models"]["a"]["limit"]["context"], 4096);
    assert_eq!(section["models"]["b"]["limit"]["context"], 131_072);
}

#[test]
fn a_missing_file_starts_empty_and_a_broken_one_is_refused() {
    let text = save_opencode_models("", "u", &[], &[], &[]).unwrap();
    assert!(opencode_model_ids(&text).is_empty());
    assert!(detect_opencode_provider(&text));
    assert_eq!(
        save_opencode_models("{", "u", &[], &[], &[]),
        Err("parse existing config as JSON".into())
    );
    for (text, error) in [
        ("[]", "top-level is not an object"),
        (r#"{"provider":1}"#, "provider is not an object"),
        (r#"{"provider":{"llama.cpp":1}}"#, "provider.llama.cpp is not an object"),
        (r#"{"provider":{"llama.cpp":{"options":1}}}"#, "options is not an object"),
        (
            r#"{"provider":{"llama.cpp":{"models":1}}}"#,
            "provider.llama.cpp.models is not an object",
        ),
    ] {
        assert_eq!(
            save_opencode_models(text, "u", &[], &[], &[]),
            Err(error.into()),
            "{text}"
        );
    }
    assert!(!detect_opencode_provider(""));
    assert!(!detect_opencode_provider("{"));
    assert!(!detect_opencode_provider(r#"{"provider":{}}"#));
    assert!(opencode_model_ids("not json").is_empty());
}

#[test]
fn of_two_presets_with_one_id_the_last_counts() {
    let all = [
        Preset { ctx_size: Some(1024), ..preset("a", "x.gguf") },
        Preset { ctx_size: Some(2048), ..preset("a", "y.gguf") },
    ];
    let v = merge_opencode(read_json("{}").unwrap(), "u", &["a".to_string()], &all, &[None, None]).unwrap();
    let model = v
        .get("provider")
        .and_then(|p| p.get("llama.cpp"))
        .and_then(|p| p.get("models"))
        .and_then(|m| m.get("a"))
        .unwrap();
    assert!(matches!(model.get("name"), Some(Json::Text(s)) if s == "Y"));
    assert_eq!(
        model.get("limit").unwrap().get("context").unwrap().as_i64(),
        Some(2048)
    );
}

#[test]
fn a_request_is_promised_no_more_than_the_training() {
    for ctx in [None, Some(0), Some(1), Some(100_000), Some(i32::MAX)] {
        for parallel in [None, Some(0), Some(1), Some(3), Some(i32::MAX)] {
            for trained in [1u32, 4096, 262_144, u32::MAX] {
                assert!(effective_ctx(ctx, parallel, Some(trained)) <= trained as i64);
            }
        }
    }
    assert_eq!(effective_ctx(None, None, Some(262_144)), 262_144);
    assert_eq!(pad_256(0), 0);
    assert_eq!(pad_256(1), 256);
    assert_eq!(pad_256(256), 256);
    assert_eq!(pad_256(257), 512);
}

#[test]
fn names_beyond_ascii_get_their_capital_too() {
    assert_eq!(friendly_model_name("id", "élan-ñandu.gguf"), "Élan Ñandu");
    assert_eq!(friendly_model_name("id", "ßeta.gguf"), "SSeta");
    assert_eq!(friendly_model_name("my-id", r"C:\"), "My Id");
    assert_eq!(friendly_model_name("id", ".gguf"), ".gguf");
    assert_eq!(friendly_model_name("id", "4x.v2.gguf"), "4x.v2");
}

#[test]
fn the_script_names_the_address_without_the_api_path() {
    let s = claude_code_env_script("the tool", "tool", "http://localhost:8080/v1", Some("qwen"));
    assert_eq!(
        s,
        "# Run this in PowerShell before launching the tool to use your local llama-server.\r\n\
         $env:ANTHROPIC_BASE_URL = \"http://localhost:8080\"\r\n\
         $env:ANTHROPIC_API_KEY = \"not-needed\"\r\n\
         # Pick a preset id from your presets.ini as the model name, e.g.:\r\n\
         # $env:ANTHROPIC_DEFAULT_SONNET_MODEL = \"qwen\"\r\n\
         # Then launch: tool\r\n"
    );
    let s = claude_code_env_script("t", "t", "http://h/v1/v1", None);
    assert!(s.contains("\"http://h\""));
    assert!(s.contains("\"<preset-id>\""));
}
