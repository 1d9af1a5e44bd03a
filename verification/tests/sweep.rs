use llama_cpp_config::bench::{Measured, Mode, Plan, LIVE_DECODE};
use llama_cpp_config::preset_file::render_section;
use llama_cpp_config::presets::Preset;
use llama_cpp_config::results::Point;
use llama_cpp_config::sweep::{
    all_keys, best, end_json, header_json, leg_json, parse_values, primary_test, render_summary,
    setter, sweep_paths, sweep_state, Apply, Leg, Opts, Summary, UNSET,
};

/// The plan a user begins with, its prompt file in the configuration directory.
fn default_plan() -> Plan {
    Plan::default_at(r"C:\Users\u\AppData\Local\llama.cpp\config\bench-prompt.txt")
}

fn point(test: &str, mean: f64, note: &str) -> Point {
    Point {
        preset: "P".into(),
        test: test.into(),
        mean: format!("{mean:.1}"),
        sd: "0.5".into(),
        n: 3,
        note: note.into(),
        rank: (mean * 10.0) as i64,
    }
}

fn leg(value: &str, decode: f64, note: &str) -> Leg {
    Leg {
        value: value.into(),
        points: vec![point(LIVE_DECODE, decode, note)],
        report: format!("bench-{value}.md"),
        error: String::new(),
        secs: 300,
    }
}

/// The line of the leg that `leg` makes.
fn leg_line(value: &str, decode: &str, note: &str) -> String {
    let points = vec![Measured {
        preset: "P".into(),
        test: LIVE_DECODE.into(),
        mean: decode.into(),
        sd: "0.5".into(),
        n: 3,
        note: note.into(),
    }];
    leg_json(value, &points, &format!("bench-{value}.md"), "", 300)
}

fn opts(values: &[&str]) -> Opts {
    Opts {
        preset: "Qwen".into(),
        key: "spec-draft-n-max".into(),
        values: values.iter().map(|v| (*v).to_string()).collect(),
        plan: default_plan(),
        apply: Apply::Original,
        restore_to: None,
    }
}

#[test]
fn values_split_on_commas_and_expand_ranges() {
    assert_eq!(parse_values("2,3, 4").unwrap(), ["2", "3", "4"]);
    assert_eq!(parse_values("2..5").unwrap(), ["2", "3", "4", "5"]);
    assert_eq!(parse_values("1,3..5,9").unwrap(), ["1", "3", "4", "5", "9"]);
}

/// A value that itself contains a comma (`device`, `tensor-split`) is only
/// reachable through the `;` form, which is the whole reason it exists.
#[test]
fn semicolon_wins_when_present() {
    assert_eq!(
        parse_values("Vulkan1,CUDA0;CUDA0;ROCm0,CUDA0").unwrap(),
        ["Vulkan1,CUDA0", "CUDA0", "ROCm0,CUDA0"]
    );
}

#[test]
fn empty_and_backwards_and_huge_ranges_are_errors() {
    assert!(parse_values("  ").is_err());
    assert!(parse_values(",,").is_err());
    assert!(parse_values("8..2").unwrap_err().contains("backwards"));
    assert!(parse_values("1..500").unwrap_err().contains("500 values"));
}

/// A token that is not a range stays a literal, dots included: `1.5` is a
/// value, not half of a range.
#[test]
fn non_range_tokens_stay_literal() {
    assert_eq!(parse_values("1.5,q8_0,a..b").unwrap(), ["1.5", "q8_0", "a..b"]);
}

#[test]
fn unknown_key_names_the_sweepable_ones() {
    let e = setter("spec-draft-nmax").unwrap_err();
    assert!(e.contains("spec-draft-n-max"), "{e}");
    assert!(e.contains("tensor-split"), "{e}");
}

/// Does the rendered section actually EMIT the key, on a line of its own, and
/// not in a comment?
fn emits(ini: &str, key: &str) -> bool {
    let head = format!("{key} = ");
    ini.lines().any(|l| {
        let line = l.trim_start();
        !line.starts_with(';') && line.starts_with(&head)
    })
}

/// Every entry in the table writes a key `render_section` actually emits.
/// A key that only existed here would sweep nothing: the leg would measure
/// the unchanged preset and report it as a data point.
#[test]
fn every_sweepable_key_reaches_the_ini() {
    for set in all_keys() {
        let key = set.name();
        let mut p = Preset {
            id: "T".into(),
            model: "C:\\m.gguf".into(),
            ..Default::default()
        };
        let value = match key {
            "flash-attn" | "mmproj-offload" => "true",
            "device" => "CUDA0",
            "tensor-split" => "3,1",
            "split-mode" => "layer",
            "override-tensor" => "token_embd\\.weight=CUDA0",
            "cache-type-k" | "cache-type-v" | "spec-draft-type-k" | "spec-draft-type-v" => "q8_0",
            "spec-type" => "draft-mtp",
            "model-draft" => "C:\\d.gguf",
            "device-draft" => "CUDA0",
            _ => "7",
        };
        set.set(&mut p, value).unwrap_or_else(|e| panic!("{key}: {e}"));
        let ini = render_section(&p);
        assert!(emits(&ini, key), "{key} never reaches presets.ini");
    }
}

#[test]
fn unset_clears_a_key() {
    let mut p = Preset {
        id: "T".into(),
        model: "C:\\m.gguf".into(),
        spec_draft_n_max: Some(6),
        flash_attn: Some(true),
        ..Default::default()
    };
    setter("spec-draft-n-max").unwrap().set(&mut p, UNSET).unwrap();
    setter("flash-attn").unwrap().set(&mut p, "UNSET").unwrap();
    assert_eq!(p.spec_draft_n_max, None);
    assert_eq!(p.flash_attn, None);
    let ini = render_section(&p);
    assert!(!emits(&ini, "spec-draft-n-max"));
    assert!(!emits(&ini, "flash-attn"));
}

#[test]
fn bad_values_fail_before_the_gpu_time() {
    assert!(setter("spec-draft-n-max").unwrap().set(&mut Preset::default(), "six").is_err());
    assert!(setter("flash-attn").unwrap().set(&mut Preset::default(), "maybe").is_err());
    // A `;` or `#` in a text value reloads truncated, so it is refused here
    // exactly as `presets::save` refuses it.
    assert!(setter("device").unwrap().set(&mut Preset::default(), "CUDA0;x").is_err());
}

#[test]
fn best_is_the_highest_primary_mean() {
    let legs = [leg("2", 39.2, ""), leg("5", 59.3, ""), leg("6", 43.6, "")];
    assert_eq!(best(&legs, LIVE_DECODE), Some(1));
    assert_eq!(best(&legs, "prefill"), None);
    assert_eq!(best(&[], LIVE_DECODE), None);
}

/// A leg that failed keeps its row: "this value does not load" is a result,
/// and a table that omits it reads as if the value was never tried.
#[test]
fn summary_keeps_failed_legs_and_ranks_the_rest() {
    let legs = vec![
        leg("2", 39.2, "draft accepted 85%"),
        Leg {
            value: "3".into(),
            error: "llama-server answered HTTP 500".into(),
            ..Default::default()
        },
        leg("5", 59.3, "draft accepted 80%"),
    ];
    let o = opts(&["2", "3", "5"]);
    let ratios: Vec<String> = legs
        .iter()
        .map(|l| match l.point(LIVE_DECODE) {
            Some(p) => format!("{:.2}x", p.mean.parse::<f64>().unwrap() / 39.2),
            None => "-".to_string(),
        })
        .collect();
    let md = render_summary(&Summary {
        opts: &o,
        legs: &legs,
        ratios: &ratios,
        original: "6",
        applied: "6",
        stamp: "2026-09-01 18:00:00 UTC",
        server_version: "0.3.0 · b10621",
    });
    assert!(md.contains("| spec-draft-n-max | decode | +- | vs 2 |"), "{md}");
    assert!(md.contains("| 2 | 39.2 | 0.5 | 1.00x |"), "{md}");
    assert!(md.contains("| 5 | 59.3 | 0.5 | 1.51x |"), "{md}");
    assert!(md.contains("FAILED: llama-server answered HTTP 500"), "{md}");
    assert!(md.contains("1 of 3 legs failed"), "{md}");
    assert!(
        md.contains("**Best: spec-draft-n-max = 5** at 59.3 t/s decode, 1.51x the first value."),
        "{md}"
    );
    // The value to put back is in the table, not only in the jsonl.
    assert!(md.contains("| spec-draft-n-max before the sweep | 6 |"), "{md}");
}

#[test]
fn header_json_carries_the_value_to_restore() {
    let o = opts(&["2", "3"]);
    let line = header_json(&o, "6", "20260901-180000");
    let v: serde_json::Value = serde_json::from_str(&line).unwrap();
    assert_eq!(v["kind"], "sweep");
    assert_eq!(v["restore"], "6");
    assert_eq!(v["key"], "spec-draft-n-max");
    assert_eq!(v["values"][1], "3");
}

#[test]
fn leg_json_carries_the_points() {
    let v: serde_json::Value =
        serde_json::from_str(&leg_line("5", "59.3", "draft accepted 80%")).unwrap();
    assert_eq!(v["kind"], "leg");
    assert_eq!(v["value"], "5");
    assert_eq!(v["points"][0]["test"], "decode");
    assert_eq!(v["points"][0]["mean"], 59.3);
    assert_eq!(v["report"], "bench-5.md");
}

/// A file with a header and no end line is the signal that presets.ini is
/// still holding one of that sweep's leg values.
#[test]
fn a_sweep_file_is_closed_only_by_its_end_line() {
    let o = opts(&["3", "4"]);
    let header = header_json(&o, "6", "20260901-192445");
    let open = sweep_state(&format!("{header}\n{}\n", leg_line("3", "47.3", ""))).unwrap();
    assert!(!open.closed_line);
    assert_eq!(open.restore, "6");
    assert_eq!(open.key, "spec-draft-n-max");
    assert_eq!(open.preset, "Qwen");

    let closed = sweep_state(&format!("{header}\n{}\n", end_json("6", 2))).unwrap();
    assert!(closed.closed_line);
}

/// Anything that is not a sweep header is not a sweep: a truncated file, an
/// empty one, or a `bench-` run that somehow got here.
#[test]
fn sweep_state_ignores_files_that_are_not_sweeps() {
    assert!(sweep_state("").is_none());
    assert!(sweep_state("{\"kind\":\"run\",\"mode\":\"live\"}").is_none());
    assert!(sweep_state("not json at all").is_none());
}

/// The summary must never land in the tab's saved-runs list: `past_runs`
/// globs `bench-*.jsonl` and `load_run` would choke on these lines.
#[test]
fn summary_files_are_not_named_like_runs() {
    let (jsonl, md) = sweep_paths("20260901-180000");
    assert!(jsonl.starts_with("sweep-"));
    assert!(md.starts_with("sweep-"));
    assert!(!jsonl.starts_with("bench-"));
}

#[test]
fn synthetic_ranks_on_the_first_tg_row() {
    let mut l = leg("2", 0.0, "");
    l.points = vec![point("pp2048", 900.0, ""), point("tg128", 21.0, "")];
    assert_eq!(primary_test(Mode::Synthetic, &[l]), "tg128");
    assert_eq!(primary_test(Mode::Live, &[]), "decode");
}
