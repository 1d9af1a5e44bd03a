use llama_cpp_config::cli::{show_lines, ServerSet};
use llama_cpp_config::server_cfg::ServerConfig;

// The only guard on `server set`'s schema mirror: every other server-field
// spot (server_cfg load/save, the form conversions) has a round-trip test,
// but `apply` is the CLI-only copy — an omitted field here is silent.

#[test]
fn server_set_apply_copies_every_field() {
    let set = ServerSet {
        port: Some(9000),
        hostname: Some("0.0.0.0".into()),
        mlock: Some(true),
        no_mmap: Some(true),
        threads: Some(8),
        cache_reuse: Some(256),
        threads_batch: Some(16),
        models_max: Some(3),
        models_dir: Some("D:\\models".into()),
        device: Some("ROCm1,CUDA0".into()),
        split_mode: Some("row".into()),
        tensor_split: Some("3,1".into()),
        override_tensor: Some(r"token_embd\.weight=ROCm1".into()),
        mmproj_device: Some("ROCm1".into()),
        webui_mcp_proxy: Some(false),
        fit: Some(true),
        prefill_assistant: Some(false),
        log_verbosity: Some(2),
        opencode_base_url: Some("https://llm.example.com".into()),
        opencode_api_key: Some("sk-test-key".into()),
    };
    let mut cfg = ServerConfig::default();
    set.apply(&mut cfg);
    // Whole-struct equality against a second exhaustive literal: the
    // compiler forces a value for a new field in BOTH literals, and the
    // equality fails until `apply` actually copies it — an initialized-
    // but-never-copied field can't slip through.
    let expected = ServerConfig {
        port: Some(9000),
        hostname: Some("0.0.0.0".into()),
        mlock: Some(true),
        no_mmap: Some(true),
        threads: Some(8),
        cache_reuse: Some(256),
        threads_batch: Some(16),
        models_max: Some(3),
        models_dir: Some("D:\\models".into()),
        device: Some("ROCm1,CUDA0".into()),
        split_mode: Some("row".into()),
        tensor_split: Some("3,1".into()),
        override_tensor: Some(r"token_embd\.weight=ROCm1".into()),
        mmproj_device: Some("ROCm1".into()),
        webui_mcp_proxy: Some(false),
        fit: Some(true),
        prefill_assistant: Some(false),
        log_verbosity: Some(2),
        opencode_base_url: Some("https://llm.example.com".into()),
        opencode_api_key: Some("sk-test-key".into()),
    };
    assert_eq!(cfg, expected);
}

// The Show leg of the 3-spot CLI fan-out: every field set in a rich config
// must surface in `server show`'s output. Complements the `apply` test
// above so neither CLI leg can silently drop a new server field.
#[test]
fn show_lines_prints_every_field() {
    let cfg = ServerConfig {
        port: Some(9000),
        hostname: Some("0.0.0.0".into()),
        mlock: Some(false),
        no_mmap: Some(true),
        threads: Some(8),
        cache_reuse: Some(256),
        threads_batch: Some(16),
        models_max: Some(3),
        models_dir: Some(r"D:\models".into()),
        device: Some("ROCm1,CUDA0".into()),
        split_mode: Some("row".into()),
        tensor_split: Some("3,1".into()),
        override_tensor: Some(r"token_embd\.weight=ROCm1".into()),
        mmproj_device: Some("ROCm1".into()),
        webui_mcp_proxy: Some(false),
        fit: Some(true),
        prefill_assistant: Some(false),
        log_verbosity: Some(2),
        opencode_base_url: Some("https://llm.example.com".into()),
        opencode_api_key: Some("sk-test-key".into()),
    };
    // The exhaustive destructure breaks compilation the moment a field is
    // added, until this test decides what to do with it — but the
    // assertions come from the hand-maintained `needles` array below:
    // bind the new field AND add its needle, or its Show row goes
    // unguarded (binding alone, or `field: _`, compiles fine).
    let ServerConfig {
        port,
        hostname,
        mlock,
        no_mmap,
        threads,
        cache_reuse,
        threads_batch,
        models_max,
        models_dir,
        device,
        split_mode,
        tensor_split,
        override_tensor,
        mmproj_device,
        webui_mcp_proxy,
        fit,
        prefill_assistant,
        log_verbosity,
        opencode_base_url,
        opencode_api_key,
    } = cfg.clone();
    let needles = [
        ("Port:", port.unwrap().to_string()),
        ("Hostname:", hostname.unwrap()),
        ("Mlock:", mlock.unwrap().to_string()),
        ("NoMmap:", no_mmap.unwrap().to_string()),
        ("Threads:", threads.unwrap().to_string()),
        ("CacheReuse:", cache_reuse.unwrap().to_string()),
        ("ThreadsBatch:", threads_batch.unwrap().to_string()),
        ("ModelsMax:", models_max.unwrap().to_string()),
        ("ModelsDir:", models_dir.unwrap()),
        ("Device:", device.unwrap()),
        ("SplitMode:", split_mode.unwrap()),
        ("TensorSplit:", tensor_split.unwrap()),
        ("OverrideTensor:", override_tensor.unwrap()),
        ("MmprojDevice:", mmproj_device.unwrap()),
        ("WebuiMcpProxy:", webui_mcp_proxy.unwrap().to_string()),
        ("Fit:", fit.unwrap().to_string()),
        ("PrefillAssistant:", prefill_assistant.unwrap().to_string()),
        ("LogVerbosity:", log_verbosity.unwrap().to_string()),
        ("OpencodeBaseUrl:", opencode_base_url.unwrap()),
        ("OpencodeApiKey:", opencode_api_key.unwrap()),
    ];
    let out = show_lines(&cfg);
    for (label, value) in needles {
        // Label and value must share a LINE: two separate contains() could
        // both pass off other fields (e.g. ModelsMax "3" matching inside
        // TensorSplit's "3,1") while this field's row prints a placeholder.
        assert!(
            out.lines().any(|l| l.contains(label) && l.contains(&value)),
            "no line pairs {label:?} with {value:?} in:\n{out}"
        );
    }
}

#[test]
fn server_set_apply_leaves_unset_flags_untouched() {
    let before = ServerConfig {
        port: Some(1234),
        hostname: Some("localhost".into()),
        threads: Some(6),
        ..Default::default()
    };
    let mut cfg = before.clone();
    ServerSet::default().apply(&mut cfg); // all flags None
    assert_eq!(cfg, before);
}

#[test]
fn server_set_apply_clears_overrides_on_nonpositive_and_blank() {
    let mut cfg = ServerConfig {
        hostname: Some("0.0.0.0".into()),
        threads: Some(8),
        cache_reuse: Some(64),
        threads_batch: Some(4),
        models_dir: Some(r"D:\models".into()),
        device: Some("CUDA0".into()),
        split_mode: Some("row".into()),
        tensor_split: Some("3,1".into()),
        override_tensor: Some(r"token_embd\.weight=CUDA0".into()),
        ..Default::default()
    };
    let set = ServerSet {
        hostname: Some("  ".into()),
        threads: Some(0),
        cache_reuse: Some(-1),
        threads_batch: Some(0),
        models_dir: Some(String::new()),
        device: Some(String::new()),
        split_mode: Some("  ".into()),
        tensor_split: Some(String::new()),
        override_tensor: Some(String::new()),
        ..Default::default()
    };
    set.apply(&mut cfg);
    assert_eq!(cfg.hostname, None);
    assert_eq!(cfg.threads, None);
    assert_eq!(cfg.cache_reuse, None);
    assert_eq!(cfg.threads_batch, None);
    assert_eq!(cfg.models_dir, None);
    assert_eq!(cfg.device, None);
    assert_eq!(cfg.split_mode, None);
    assert_eq!(cfg.tensor_split, None);
    assert_eq!(cfg.override_tensor, None);
}
