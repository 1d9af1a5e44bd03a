use llama_cpp_config::bench::{
    device_names, effective, live_body, live_preview, normalize_prompt, parse_bench_build,
    parse_bench_flash_attn, parse_bench_line, parse_timings, prompt_info, synthetic_argv,
    synthetic_sweeps, unknown_device_warning, validate, Mode, Plan, Sweep, Timings, DEFAULT_PROMPT,
    PREVIEW_PROMPT_CHARS, REPORT_PROMPT_CHARS,
};
use llama_cpp_config::devices;
use llama_cpp_config::presets::Preset;
use llama_cpp_config::report::{render_report, RunMeta};
use llama_cpp_config::results::{base_index, flash_attn_mismatch, rows, Point, Seen};
use llama_cpp_config::runs::{bench_row_json, run_header_json};
use llama_cpp_config::server_cfg::ServerConfig;
use llama_cpp_config::sha256;
use llama_cpp_config::stamp::{stamp, stamp_human, stamp_label};

/// The plan a user begins with, its prompt file in the configuration directory.
fn default_plan() -> Plan {
    Plan::default_at(r"C:\Users\u\AppData\Local\llama.cpp\config\bench-prompt.txt")
}

fn rate(numeral: &str) -> f64 {
    numeral.parse().expect("a numeral")
}

/// The share of drafted tokens that were kept, where any were drafted.
fn acceptance(t: &Timings) -> Option<f64> {
    t.drafted()
        .then(|| 100.0 * t.draft_accepted as f64 / t.draft_n as f64)
}

fn preset(id: &str) -> Preset {
    Preset {
        id: id.into(),
        model: r"E:\models\m.gguf".into(),
        ..Default::default()
    }
}

fn argv_of(a: &[String], flag: &str) -> Option<String> {
    a.iter()
        .position(|x| x == flag)
        .and_then(|i| a.get(i + 1))
        .cloned()
}

/// The prefill sweep of the default plan, the one most assertions want.
fn first_sweep(plan: &Plan) -> Sweep {
    synthetic_sweeps(plan).first().cloned().expect("a sweep")
}

// One invocation with both halves would run the CARTESIAN product: `-d`
// multiplies the pp tests too, so the default sweep would be 3 lengths x 3
// depths + 3 depths = 12 tests instead of 6, for the same information at
// twice the wall clock. This pins the split (and that the depths ride the
// decode half only).
#[test]
fn the_workload_splits_into_a_prefill_and_a_decode_sweep() {
    let sweeps = synthetic_sweeps(&default_plan());
    assert_eq!(sweeps.len(), 2);
    assert_eq!(sweeps[0].name, "prefill");
    assert_eq!(
        argv_of(&sweeps[0].args, "-p").as_deref(),
        Some("2048,8192,32768")
    );
    assert_eq!(argv_of(&sweeps[0].args, "-n").as_deref(), Some("0"));
    assert!(
        !sweeps[0].args.iter().any(|a| a == "-d"),
        "no depths on prefill"
    );

    assert_eq!(sweeps[1].name, "decode");
    assert_eq!(argv_of(&sweeps[1].args, "-p").as_deref(), Some("0"));
    assert_eq!(argv_of(&sweeps[1].args, "-n").as_deref(), Some("128"));
    assert_eq!(
        argv_of(&sweeps[1].args, "-d").as_deref(),
        Some("0,8192,32768")
    );

    // Each half can be asked for alone, and a plan with neither is what
    // `validate` refuses.
    let only_pp = Plan {
        n_gen: 0,
        ..default_plan()
    };
    assert_eq!(synthetic_sweeps(&only_pp).len(), 1);
    assert_eq!(synthetic_sweeps(&only_pp)[0].name, "prefill");
    let only_tg = Plan {
        prompt_lens: Vec::new(),
        ..default_plan()
    };
    assert_eq!(synthetic_sweeps(&only_tg)[0].name, "decode");
    let neither = Plan {
        prompt_lens: Vec::new(),
        n_gen: 0,
        presets: vec!["a".into()],
        mode: Mode::Synthetic,
        ..default_plan()
    };
    assert!(synthetic_sweeps(&neither).is_empty());
    assert!(validate(&neither).is_some());
}

// The three separator conversions, each of which turns ONE benchmark into
// several when it is missed (a comma is llama-bench's "run these as separate
// configurations"), so the preset would be benchmarked in a placement it
// never runs in.
#[test]
fn ini_separators_become_llama_bench_separators() {
    let p = Preset {
        device: "ROCm0,CUDA0".into(),
        tensor_split: "54,12".into(),
        override_tensor: r"token_embd\.weight=ROCm0,output\.weight=CUDA0".into(),
        ..preset("a")
    };
    let plan = default_plan();
    let a = synthetic_argv(&p, &ServerConfig::default(), "auto", &plan, &first_sweep(&plan));
    assert_eq!(argv_of(&a, "-dev").as_deref(), Some("ROCm0/CUDA0"));
    assert_eq!(argv_of(&a, "-ts").as_deref(), Some("54/12"));
    assert_eq!(
        argv_of(&a, "-ot").as_deref(),
        Some(r"token_embd\.weight=ROCm0;output\.weight=CUDA0")
    );
    assert!(!a.iter().any(|x| x.contains(',') && x.contains('=')));
}

// The router copies the server's own CLI over every preset, so a benchmark
// that used the preset's placement would measure something the machine never
// runs. Devices and split travel together: taking the server's devices with
// the preset's weights would index a ratio into the wrong cards.
#[test]
fn server_wide_placement_shadows_the_preset() {
    let p = Preset {
        device: "CUDA0".into(),
        tensor_split: "1".into(),
        override_tensor: "a=CPU".into(),
        ..preset("a")
    };
    let cfg = ServerConfig {
        device: Some("ROCm0,CUDA0".into()),
        tensor_split: Some("3,1".into()),
        override_tensor: Some("b=ROCm0".into()),
        ..Default::default()
    };
    let eff = effective(&p, &cfg);
    assert_eq!(eff.device, "ROCm0,CUDA0");
    assert_eq!(eff.tensor_split, "3,1");
    assert_eq!(eff.override_tensor, "b=ROCm0");

    // A server-wide device list with a BLANK split means auto-by-free-VRAM,
    // and that blank must win too: keeping the preset's weights here would
    // apply a two-device ratio the user did not ask for.
    let cfg = ServerConfig {
        device: Some("ROCm0,CUDA0".into()),
        ..Default::default()
    };
    assert_eq!(effective(&p, &cfg).tensor_split, "");
}

#[test]
fn an_untouched_preset_passes_only_the_workload() {
    let plan = default_plan();
    let a = synthetic_argv(
        &preset("a"),
        &ServerConfig::default(),
        "auto",
        &plan,
        &first_sweep(&plan),
    );
    for flag in [
        "-dev", "-ts", "-sm", "-ot", "-ngl", "-ncmoe", "-ctk", "-fa", "-b", "-ub",
    ] {
        assert!(!a.iter().any(|x| x == flag), "{flag} should be absent");
    }
    assert_eq!(argv_of(&a, "-m").as_deref(), Some(r"E:\models\m.gguf"));
    assert_eq!(argv_of(&a, "-p").as_deref(), Some("2048,8192,32768"));
    // jsonl, not json: one flushed object per completed test, so a run
    // killed by a driver reset keeps what it measured.
    assert_eq!(argv_of(&a, "-o").as_deref(), Some("jsonl"));
}

// cache_prompt is what keeps every repetition a cold prefill; without it the
// second one reports the prefix cache's speed and the mean is a fiction.
#[test]
fn the_live_body_disables_the_prefix_cache_and_carries_the_override() {
    let plan = Plan {
        prompt: "hi".into(),
        temp: Some("0".into()),
        max_tokens: 64,
        ..default_plan()
    };
    let body: serde_json::Value = serde_json::from_str(&live_body("qwen", &plan)).unwrap();
    assert_eq!(body["cache_prompt"], serde_json::Value::Bool(false));
    assert_eq!(body["model"], "qwen");
    assert_eq!(body["temperature"], 0.0);
    assert_eq!(body["max_tokens"], 64);
    assert_eq!(body["stream"], serde_json::Value::Bool(false));

    // "the preset's own" must OMIT the key: sending any number would
    // override the preset with it.
    let plan = Plan { temp: None, ..plan };
    let body: serde_json::Value = serde_json::from_str(&live_body("qwen", &plan)).unwrap();
    assert!(body.get("temperature").is_none());
}

#[test]
fn timings_are_read_from_the_right_keys() {
    let body = r#"{"choices":[],"timings":{
        "cache_n": 7, "prompt_n": 1024, "prompt_per_second": 900.5,
        "predicted_n": 128, "predicted_per_second": 35.25,
        "draft_n": 100, "draft_n_accepted": 74 }}"#;
    let t = parse_timings(body).unwrap();
    assert_eq!(t.prompt_n, 1024);
    assert!((rate(&t.prompt_tps) - 900.5).abs() < 1e-9);
    assert!((rate(&t.predicted_tps) - 35.25).abs() < 1e-9);
    assert_eq!(t.cache_n, 7);
    assert_eq!(acceptance(&t).map(|a| a.round()), Some(74.0));

    // No drafter: no acceptance figure at all, rather than a 0% that would
    // read as "it drafted and everything was rejected".
    let t = parse_timings(r#"{"timings":{"predicted_per_second":10}}"#).unwrap();
    assert_eq!(acceptance(&t), None);

    // llama-server's error shape must surface as the error, not as
    // "no timings": the message is the actionable half.
    let err = parse_timings(r#"{"error":{"message":"model not found"}}"#).unwrap_err();
    assert!(err.contains("model not found"), "{err}");
}

#[test]
fn a_bench_line_becomes_a_point_with_llama_bench_s_own_label() {
    let line = r#"{"n_prompt":0,"n_gen":128,"n_depth":8192,"avg_ts":35.5,"stddev_ts":0.5,"build_number":10566}"#;
    let p = parse_bench_line(line, "qwen", 3).unwrap();
    assert_eq!(p.test, "tg128 @ d8192");
    assert_eq!(p.preset, "qwen");
    assert_eq!(p.n, 3);
    assert_eq!(parse_bench_build(line), Some(10566));

    let line = r#"{"n_prompt":2048,"n_gen":0,"n_depth":0,"avg_ts":600.0}"#;
    assert_eq!(parse_bench_line(line, "q", 1).unwrap().test, "pp2048");
    // A progress line or any other non-row must not become a point.
    assert!(parse_bench_line("not json", "q", 1).is_none());
    assert!(parse_bench_line(r#"{"n_prompt":1}"#, "q", 1).is_none());
}

#[test]
fn rows_group_by_test_and_ratio_against_the_first_preset() {
    let pt = |preset: &str, test: &str, mean: f64| Point {
        preset: preset.into(),
        test: test.into(),
        mean: format!("{mean:.1}"),
        sd: "0.0".into(),
        n: 3,
        note: String::new(),
        rank: (mean * 10.0) as i64,
    };
    let points = vec![
        pt("a", "pp2048", 100.0),
        pt("b", "pp2048", 50.0),
        pt("a", "tg128", 20.0),
        pt("b", "tg128", 30.0),
    ];
    let order = vec!["a".to_string(), "b".to_string()];
    let ratios: Vec<String> = points
        .iter()
        .map(|p| {
            let base = base_index(&points, &order, &p.test).expect("measured by the first preset");
            format!("{:.2}x", rate(&p.mean) / rate(&points[base].mean))
        })
        .collect();
    let r = rows(&points, &order, &ratios);
    assert_eq!(r.len(), 4);
    assert_eq!((r[0].test.as_str(), r[0].preset.as_str()), ("pp2048", "a"));
    assert_eq!(r[0].ratio, "1.00x");
    assert_eq!(r[1].ratio, "0.50x");
    assert_eq!((r[2].test.as_str(), r[2].preset.as_str()), ("tg128", "a"));
    assert_eq!(r[3].ratio, "1.50x");

    // A preset that produced a test the baseline did not gets no invented
    // ratio.
    let r = rows(&[pt("b", "pp4096", 10.0)], &order, &["1.00x".to_string()]);
    assert_eq!(r[0].ratio, "-");
}

// The confound this exists to catch, in the exact shape it took: two presets
// that differ only by device, NEITHER pinning flash-attn, so both ran at
// `auto` and `auto` resolved differently per backend. Nothing in the rates
// shows it.
#[test]
fn a_flash_attn_difference_between_compared_presets_is_reported() {
    let seen = |pairs: &[(&str, &str)]| -> Seen {
        let mut out = Seen::new();
        for (k, v) in pairs {
            out.insert(k.to_string(), v.to_string());
        }
        out
    };
    let w = flash_attn_mismatch(&seen(&[("vk", "off"), ("rocm", "on")])).expect("warned");
    assert!(w.contains("vk=off") && w.contains("rocm=on"), "{w}");

    // Agreement is silence, however it was reached: a preset pinning `on`
    // and one resolving `on` from auto are the same configuration.
    assert_eq!(
        flash_attn_mismatch(&seen(&[("a", "on"), ("b", "on")])),
        None
    );
    // One preset is nothing to compare, and an empty map is a run that
    // produced no rows.
    assert_eq!(flash_attn_mismatch(&seen(&[("a", "on")])), None);
    assert_eq!(flash_attn_mismatch(&Seen::new()), None);
}

// llama-bench spells the field differently per output format, and reading it
// wrong would silence the warning above rather than fire it, which is the
// failure that hides.
#[test]
fn the_resolved_flash_attn_is_read_in_every_spelling() {
    assert_eq!(
        parse_bench_flash_attn(r#"{"flash_attn":true}"#).as_deref(),
        Some("on")
    );
    assert_eq!(
        parse_bench_flash_attn(r#"{"flash_attn":false}"#).as_deref(),
        Some("off")
    );
    assert_eq!(
        parse_bench_flash_attn(r#"{"flash_attn":1}"#).as_deref(),
        Some("on")
    );
    assert_eq!(
        parse_bench_flash_attn(r#"{"flash_attn":0}"#).as_deref(),
        Some("off")
    );
    assert_eq!(
        parse_bench_flash_attn(r#"{"flash_attn":"auto"}"#).as_deref(),
        Some("auto")
    );
    assert_eq!(parse_bench_flash_attn(r#"{"avg_ts":1}"#), None);
    assert_eq!(parse_bench_flash_attn("not json"), None);
}

// The ids are not stable across driver states, so the report records what
// each one pointed at, and an id the probe does not know is a warning rather
// than a blank.
#[test]
fn device_ids_are_resolved_to_names_and_unknown_ones_warn() {
    let devs = devices::parse(
        "Available devices:\n  \
         CUDA0: NVIDIA GeForce RTX 4070 SUPER (12281 MiB, 10844 MiB free)\n  \
         ROCm0: AMD Radeon AI PRO R9700 (32624 MiB, 32462 MiB free)\n",
    );
    let got = device_names("ROCm0, CUDA0", &devs);
    assert_eq!(got[0].1, "AMD Radeon AI PRO R9700");
    assert_eq!(got[1].1, "NVIDIA GeForce RTX 4070 SUPER");
    assert_eq!(unknown_device_warning(&vec![("p".into(), got)]), None);

    // A stale id keeps its slot with an empty name, and is called out.
    let stale = device_names("ROCm1", &devs);
    assert_eq!(stale, vec![("ROCm1".to_string(), String::new())]);
    let w = unknown_device_warning(&vec![("p".into(), stale)]).expect("warned");
    assert!(w.contains("p -> ROCm1"), "{w}");

    // An empty device list is "llama.cpp picks", not an error.
    assert!(device_names("", &devs).is_empty());
}

// The raw row is the audit trail; wrapping it must not lose it, and a row
// that is not JSON must not take the run down with it.
#[test]
fn the_raw_bench_row_is_kept_verbatim() {
    let row = r#"{"n_prompt":2048,"avg_ts":900.0,"flash_attn":true,"n_threads":18}"#;
    let v: serde_json::Value = serde_json::from_str(&bench_row_json("qwen", row)).unwrap();
    assert_eq!(v["kind"], "bench_row");
    assert_eq!(v["preset"], "qwen");
    assert_eq!(v["row"]["n_threads"], 18);
    assert_eq!(v["row"]["flash_attn"], serde_json::Value::Bool(true));

    let v: serde_json::Value = serde_json::from_str(&bench_row_json("q", "junk")).unwrap();
    assert!(v["row"].is_null(), "unparseable rows degrade, not panic");
}

// Warnings go ABOVE the table: a reader who stops at the numbers must
// already have seen why they may not mean what they look like.
#[test]
fn warnings_precede_the_results_and_the_environment_is_recorded() {
    let plan = Plan {
        presets: vec!["a".into()],
        ..default_plan()
    };
    let meta = RunMeta {
        warnings: vec!["legs disagree".into()],
        env: vec![("booted".into(), "yesterday".into())],
        ..RunMeta::default()
    };
    let md = render_report(&plan, &[], &[], &meta);
    let warn_at = md.find("legs disagree").expect("warning present");
    let results_at = md.find("## Results").expect("results heading");
    assert!(warn_at < results_at, "the warning must come first");
    assert!(md.contains("## Environment"));
    assert!(md.contains("| booted | yesterday |"));
}

#[test]
fn validate_refuses_the_plans_that_would_benchmark_nothing() {
    assert!(validate(&default_plan()).is_some(), "no preset selected");
    // A default plan carries a prompt FILE and no text: the caller reads
    // one into the other at Run. So it must NOT validate, or a forgotten
    // read would benchmark the model answering nothing, and the message
    // has to name the file the text was supposed to come from.
    let unresolved = Plan {
        presets: vec!["a".into()],
        ..default_plan()
    };
    let problem = validate(&unresolved).expect("an unresolved prompt is not a plan");
    assert!(
        problem.contains("bench-prompt.txt"),
        "the message names the file: {problem}"
    );

    let base = Plan {
        prompt: DEFAULT_PROMPT.into(),
        ..unresolved
    };
    assert!(validate(&base).is_none());
    assert!(validate(&Plan {
        prompt: "  ".into(),
        ..base.clone()
    })
    .is_some());
    // The synthetic mode needs no prompt, so a blank one must not stop it.
    assert!(validate(&Plan {
        mode: Mode::Synthetic,
        prompt: String::new(),
        ..base.clone()
    })
    .is_none());
    assert!(validate(&Plan { reps: 0, ..base }).is_some());
}

/// The two normalizations that decide whether two runs are comparable: a
/// BOM is a token of the prompt if it survives, and CRLF against LF is a
/// different tokenization of "the same" text saved by two editors.
#[test]
fn normalize_strips_the_bom_and_folds_crlf() {
    assert_eq!(normalize_prompt("\u{feff}hello"), "hello");
    assert_eq!(normalize_prompt("a\r\nb\r\n"), "a\nb\n");
    assert_eq!(normalize_prompt("\u{feff}a\r\nb"), "a\nb");
    // A lone CR is left alone: it is not a line ending Windows editors
    // write, and rewriting bytes nobody asked about is how a prompt stops
    // being what the file says.
    assert_eq!(normalize_prompt("a\rb"), "a\rb");
    // Trailing whitespace survives: a prompt that ends in a newline is a
    // deliberately different prompt for some templates.
    assert_eq!(normalize_prompt("hi \n"), "hi \n");
    // The digest follows the normalization, which is the whole point: the
    // same prompt saved two ways must hash the same.
    assert_eq!(
        prompt_info(&normalize_prompt("a\r\nb")).sha256,
        prompt_info(&normalize_prompt("a\nb")).sha256
    );
}

/// The preview elides a long prompt; the REQUEST never does. One formatter
/// builds both, so this pins the only difference between them.
#[test]
fn the_preview_elides_the_prompt_and_the_request_does_not() {
    let long: String = "x".repeat(PREVIEW_PROMPT_CHARS * 3);
    let plan = Plan {
        presets: vec!["a".into()],
        prompt: long.clone(),
        ..default_plan()
    };
    let preview = live_preview(8080, "a", &plan);
    assert!(preview.contains("chars shown]"), "the preview says it cut");
    assert!(preview.len() < long.len(), "and actually cut");

    let body = live_body("a", &plan);
    let parsed: serde_json::Value = serde_json::from_str(&body).unwrap();
    assert_eq!(parsed["messages"][0]["content"], long.as_str());
    assert_eq!(parsed["cache_prompt"], serde_json::Value::Bool(false));
}

/// What makes an old comparison checkable: the report identifies the prompt
/// by path AND digest, and embeds the text only up to a cap.
#[test]
fn the_report_identifies_the_prompt_by_path_and_digest() {
    let plan = Plan {
        presets: vec!["a".into()],
        prompt: DEFAULT_PROMPT.into(),
        prompt_file: Some(r"D:\prompts\short.txt".into()),
        ..default_plan()
    };
    let md = render_report(&plan, &[], &[], &RunMeta::default());
    assert!(md.contains(r"short.txt"), "the path is in the report");
    assert!(md.contains(&sha256::hex(DEFAULT_PROMPT.as_bytes())));
    assert!(
        md.contains(DEFAULT_PROMPT),
        "a short prompt is embedded whole"
    );

    // Inline (`--prompt`) says so instead of printing an invented path.
    let inline = Plan {
        prompt_file: None,
        ..plan.clone()
    };
    assert!(render_report(&inline, &[], &[], &RunMeta::default()).contains("--prompt"));

    // Past the cap the text is cut, the digest is not.
    let long = Plan {
        prompt: "y".repeat(REPORT_PROMPT_CHARS * 2),
        ..plan
    };
    let md = render_report(&long, &[], &[], &RunMeta::default());
    assert!(md.contains("chars shown]"));
    assert!(
        md.len() < REPORT_PROMPT_CHARS * 2,
        "the report stayed small"
    );
    assert!(md.contains(&sha256::hex(long.prompt.as_bytes())));
}

/// The jsonl header carries the prompt's identity too: comparing two old
/// runs is a machine-readable question, and until the prompt became a file
/// this stream said nothing about it at all.
#[test]
fn the_run_header_carries_the_prompt_digest_for_live_runs_only() {
    let plan = Plan {
        presets: vec!["a".into()],
        prompt: DEFAULT_PROMPT.into(),
        prompt_file: Some("p.txt".into()),
        ..default_plan()
    };
    let header: serde_json::Value =
        serde_json::from_str(&run_header_json(&plan, &RunMeta::default())).unwrap();
    assert_eq!(header["prompt_file"], "p.txt");
    assert_eq!(
        header["prompt_sha256"],
        sha256::hex(DEFAULT_PROMPT.as_bytes()).as_str()
    );
    assert_eq!(
        header["prompt_chars"],
        DEFAULT_PROMPT.chars().count() as u64
    );

    // The synthetic engine has no prompt to identify, so claiming one would
    // be a lie in the machine-readable half of the record.
    let synthetic = Plan {
        mode: Mode::Synthetic,
        ..plan
    };
    let header: serde_json::Value =
        serde_json::from_str(&run_header_json(&synthetic, &RunMeta::default())).unwrap();
    assert!(header.get("prompt_sha256").is_none());
}

#[test]
fn stamps_are_utc_and_sort_chronologically() {
    // 2026-08-31 12:34:56 UTC.
    let secs = 1_788_179_696;
    assert_eq!(stamp(secs), "20260831-123456");
    assert_eq!(stamp_human(secs), "2026-08-31 12:34:56 UTC");
    assert_eq!(stamp_label("20260831-123456"), "2026-08-31 12:34:56 UTC");
    assert_eq!(stamp_label("whatever"), "whatever");
    assert!(stamp(secs) > stamp(secs - 1));
    assert_eq!(stamp(0), "19700101-000000");
}

#[test]
fn the_report_names_what_the_mode_cannot_measure() {
    let plan = Plan {
        presets: vec!["a".into()],
        mode: Mode::Synthetic,
        ..default_plan()
    };
    let md = render_report(&plan, &[], &[], &RunMeta::default());
    assert!(md.contains("synthetic (llama-bench)"));
    assert!(md.contains("No results were collected."));
    assert!(md.contains("No speculative decoding"));
    assert!(md.contains("takes no prompt"));

    let plan = Plan {
        mode: Mode::Live,
        ..plan
    };
    let md = render_report(&plan, &[], &[], &RunMeta::default());
    assert!(md.contains("cache_prompt"));
    assert!(md.contains("## Prompt"));
}
