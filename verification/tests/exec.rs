use llama_cpp_config::bench::{Mode, Timings};
use llama_cpp_config::exec::{
    absorb_line, bench_step, bench_text, choose_presets, device_rows, exit_problem, find_preset,
    finish_meta, live_step, load_one, partial_text, preflight, repetition_text, reply_timings,
    sample_detail, warm_text, BenchLog, Step, Tally, Walk,
};
use llama_cpp_config::presets::Preset;
use llama_cpp_config::report::RunMeta;
use llama_cpp_config::results::Seen;

fn preset(id: &str) -> Preset {
    Preset {
        id: id.into(),
        ..Default::default()
    }
}

fn timings() -> Timings {
    Timings {
        prompt_n: 10,
        prompt_tps: "100.0".into(),
        predicted_n: 5,
        predicted_tps: "20.5".into(),
        cache_n: 3,
        draft_n: 8,
        draft_accepted: 6,
    }
}

#[test]
fn each_engine_needs_the_server_in_the_opposite_state() {
    assert!(preflight(Mode::Live, true).is_none());
    assert!(preflight(Mode::Live, false).unwrap().contains("is not running"));
    assert!(preflight(Mode::Synthetic, false).is_none());
    assert!(preflight(Mode::Synthetic, true).unwrap().contains("Stop it first"));
}

#[test]
fn presets_are_found_by_their_id() {
    let all = [preset("a"), preset("b"), preset("a")];
    assert_eq!(find_preset(&all, "a"), Some(0));
    assert_eq!(find_preset(&all, "c"), None);
    assert_eq!(load_one(&all, "b"), Ok(1));
    assert_eq!(
        load_one(&all, "c"),
        Err("no preset `c` in presets.ini. Known presets: a, b, a".into())
    );
    assert_eq!(
        choose_presets(&all, &vec!["b".into(), "a".into()]),
        Ok(vec![1, 0])
    );
    assert_eq!(
        choose_presets(&all, &vec!["b".into(), "gone".into()]),
        Err("A selected preset is no longer in presets.ini. Refresh (F5) and re-select.".into())
    );
}

#[test]
fn a_live_run_warms_each_preset_before_its_repetitions() {
    let reps = 2;
    let mut at = Walk { preset: 0, step: 0 };
    let mut steps = Vec::new();
    loop {
        let step = live_step(2, at, false);
        steps.push(step);
        if step == Step::Finish {
            break;
        }
        at.advance(reps + 1);
    }
    assert_eq!(
        steps,
        [
            Step::Warm(0),
            Step::Ask(0, 1),
            Step::Ask(0, 2),
            Step::Warm(1),
            Step::Ask(1, 1),
            Step::Ask(1, 2),
            Step::Finish,
        ]
    );
    assert_eq!(live_step(2, Walk { preset: 1, step: 1 }, true), Step::Cancel);
    // What is done is done: a late cancel does not undo it.
    assert_eq!(live_step(2, Walk { preset: 2, step: 0 }, true), Step::Finish);
}

#[test]
fn a_synthetic_run_takes_both_halves_of_a_preset_together() {
    let mut at = Walk { preset: 0, step: 0 };
    let mut steps = Vec::new();
    while at.preset < 2 {
        steps.push(bench_step(2, at, false));
        at.advance(2);
    }
    assert_eq!(
        steps,
        [
            Step::Bench(0, 0),
            Step::Bench(0, 1),
            Step::Bench(1, 0),
            Step::Bench(1, 1),
        ]
    );
    assert_eq!(bench_step(2, at, true), Step::Finish);
    assert_eq!(bench_step(2, Walk { preset: 0, step: 1 }, true), Step::Cancel);
}

#[test]
fn a_reply_is_timings_or_the_reason_why_not() {
    let ok = r#"{"timings":{"prompt_n":4,"predicted_per_second":12.5}}"#;
    let t = reply_timings("p", 200, ok).unwrap();
    assert_eq!(t.prompt_n, 4);
    assert_eq!(t.predicted_tps, "12.5");
    assert_eq!(t.prompt_tps, "0");
    assert_eq!(
        reply_timings("p", 503, ok),
        Err("p: llama-server answered HTTP 503. See the run log.".into())
    );
    assert_eq!(
        reply_timings("p", 200, r#"{"error":{"message":"busy"}}"#),
        Err("p: busy".into())
    );
    assert_eq!(
        reply_timings("p", 200, "{}"),
        Err("p: no timings in the response (is this llama-server?)".into())
    );
    assert!(reply_timings("p", 200, "{")
        .unwrap_err()
        .starts_with("p: unreadable response: "));
}

#[test]
fn repetitions_add_up() {
    let mut t = Tally::new();
    t.absorb(&timings());
    t.absorb(&Timings { cache_n: 1, ..timings() });
    assert_eq!(
        t,
        Tally {
            cache_seen: 3,
            draft_n: 16,
            draft_ok: 12
        }
    );
    let d = sample_detail(&timings(), &Some("75".into()));
    assert_eq!(d.get("cache_n").unwrap().as_i64(), Some(3));
    assert_eq!(d.get("draft_n_accepted").unwrap().as_i64(), Some(6));
    assert!(d.get("draft_acceptance_pct").unwrap().as_i64().is_none());
}

#[test]
fn a_row_of_llama_bench_gives_a_point_and_is_kept() {
    let mut log = BenchLog {
        build: None,
        flash_attn: Seen::new(),
    };
    assert!(absorb_line(&mut log, "llama_model_load: ...", "p", 3).is_none());
    assert!(absorb_line(&mut log, r#"{"build_number":7}"#, "p", 3).is_none());
    assert_eq!(log.build, Some(7));
    let line = r#" {"n_prompt":2048,"avg_ts":900.25,"flash_attn":1,"build_number":8} "#;
    let row = absorb_line(&mut log, line, "p", 3).unwrap();
    assert_eq!(row.point.test, "pp2048");
    assert_eq!(row.point.mean, "900.25");
    assert_eq!(row.point.sd, "0");
    assert_eq!(row.point.n, 3);
    let raw: serde_json::Value = serde_json::from_str(&row.raw).unwrap();
    assert_eq!(raw["row"]["avg_ts"], 900.25);
    assert_eq!(log.build, Some(7), "the first build counts");
    assert_eq!(
        log.flash_attn.pairs(),
        &vec![("p".to_string(), "on".to_string())]
    );
}

#[test]
fn what_the_rows_told_is_added_to_the_report() {
    let mut seen = Seen::new();
    seen.insert("b".into(), "off".into());
    seen.insert("a".into(), "on".into());
    let mut meta = RunMeta {
        stamp: "now".into(),
        ..RunMeta::default()
    };
    finish_meta(&mut meta, &seen);
    assert_eq!(meta.stamp, "now");
    assert_eq!(meta.warnings.len(), 1);
    assert!(meta.warnings[0].contains("a=on, b=off"));
    assert_eq!(
        meta.env,
        vec![
            ("flash-attn (a)".to_string(), "on".to_string()),
            ("flash-attn (b)".to_string(), "off".to_string()),
        ]
    );
}

#[test]
fn devices_are_listed_with_their_names() {
    let rows = device_rows(&vec![
        ("p".into(), vec![("CUDA0".into(), "RTX".into()), ("X1".into(), String::new())]),
        ("q".into(), Vec::new()),
    ]);
    assert_eq!(
        rows,
        vec![("devices (p)".to_string(), "CUDA0 = RTX, X1 (not detected)".to_string())]
    );
}

#[test]
fn what_a_run_says_on_its_way() {
    assert_eq!(warm_text("p"), "p: loading the model (warm-up request)");
    assert_eq!(repetition_text("p", 2, 3), "p: repetition 2/3");
    assert_eq!(bench_text("p", "decode"), "p: llama-bench, decode sweep");
    assert_eq!(exit_problem(false, true, "exit status: 0", "p", "x.log"), None);
    assert_eq!(
        exit_problem(true, true, "", "p", "x.log").as_deref(),
        Some("Cancelled.")
    );
    assert_eq!(
        exit_problem(false, false, "exit status: 1", "p", "x.log").as_deref(),
        Some("llama-bench exited with exit status: 1 on preset 'p'. See the run log (x.log).")
    );
    assert_eq!(
        partial_text("Cancelled.", "r.md"),
        "Cancelled. (partial results saved to r.md)"
    );
}
