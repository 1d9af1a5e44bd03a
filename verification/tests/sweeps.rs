use llama_cpp_config::bench::{Mode, Plan};
use llama_cpp_config::presets::Preset;
use llama_cpp_config::results::Point;
use llama_cpp_config::sweep::{
    all_keys, check_values, current_value, edit_text, interrupted, keys, leftover_text, leg_plan,
    opening_text, parse_values, render_summary, report_leg, setter, sweep_names, sweep_outcome,
    value_to_apply, value_to_restore, Apply, Leg, Opts, State, Summary, SweepFile, SweepKey,
};

/// The plan a user begins with, its prompt file in the configuration directory.
fn default_plan() -> Plan {
    Plan::default_at(r"C:\Users\u\AppData\Local\llama.cpp\config\bench-prompt.txt")
}

fn opts() -> Opts {
    Opts {
        preset: "Qwen".into(),
        key: "parallel".into(),
        values: vec!["1".into(), "2".into()],
        plan: default_plan(),
        apply: Apply::Original,
        restore_to: None,
    }
}

fn leg(value: &str, mean: f64, error: &str) -> Leg {
    Leg {
        value: value.into(),
        points: if error.is_empty() {
            vec![Point {
                preset: "Qwen".into(),
                test: "decode".into(),
                mean: format!("{mean:.1}"),
                sd: "0.1".into(),
                n: 3,
                note: "cold".into(),
                rank: (mean * 10.0) as i64,
            }]
        } else {
            Vec::new()
        },
        report: String::new(),
        error: error.into(),
        secs: 12,
    }
}

#[test]
fn every_key_is_found_by_its_name_and_sets_its_own_field() {
    for key in all_keys() {
        assert_eq!(setter(key.name()), Ok(key));
        assert!(keys().contains(key.name()));
        let mut p = Preset::default();
        let value = match key {
            SweepKey::FlashAttn => "on",
            SweepKey::MmprojOffload => "no",
            _ => "7",
        };
        key.set(&mut p, value).unwrap();
        assert_ne!(p, Preset::default(), "{}", key.name());
        key.set(&mut p, "Unset").unwrap();
    }
    let mut p = Preset::default();
    SweepKey::CtxSize.set(&mut p, "4096").unwrap();
    SweepKey::TensorSplit.set(&mut p, "3,1").unwrap();
    SweepKey::FlashAttn.set(&mut p, "OFF").unwrap();
    assert_eq!(
        p,
        Preset {
            ctx_size: Some(4096),
            tensor_split: "3,1".into(),
            flash_attn: Some(false),
            ..Default::default()
        }
    );
}

#[test]
fn a_bad_value_names_itself_and_changes_nothing() {
    let mut p = Preset::default();
    assert_eq!(
        SweepKey::CtxSize.set(&mut p, "many"),
        Err("`many` is not a whole number (or `unset`)".into())
    );
    assert_eq!(
        SweepKey::FlashAttn.set(&mut p, "2"),
        Err("`2` is not a boolean (true/false, or `unset`)".into())
    );
    assert!(SweepKey::Device.set(&mut p, "a#b").is_err());
    assert_eq!(p, Preset::default());
    let values = vec!["1".to_string(), "x".into(), "y".into()];
    assert_eq!(
        check_values(SweepKey::Parallel, &p, &values).as_deref(),
        Some("value `x`: `x` is not a whole number (or `unset`)")
    );
    assert_eq!(check_values(SweepKey::Device, &p, &values), None);
}

#[test]
fn ranges_end_where_they_are_told_to() {
    assert_eq!(parse_values("-2..1").unwrap(), ["-2", "-1", "0", "1"]);
    assert_eq!(parse_values("5..5").unwrap(), ["5"]);
    assert_eq!(parse_values("1..64").unwrap().len(), 64);
    assert_eq!(
        parse_values("1..65"),
        Err("range `1..65` is 65 values; list them explicitly if that is meant".into())
    );
    assert_eq!(
        parse_values("-9223372036854775808..9223372036854775807"),
        Err("range `-9223372036854775808..9223372036854775807` is 18446744073709551616 values; list them explicitly if that is meant".into())
    );
    assert_eq!(parse_values("3..1,x"), Err("range `3..1` runs backwards".into()));
}

#[test]
fn the_preset_is_left_on_what_was_asked_for() {
    let legs = vec![leg("1", 10.0, ""), leg("2", 30.0, ""), leg("3", 30.0, ""), leg("4", 0.0, "x")];
    assert_eq!(value_to_apply(Apply::Original, "9", &legs, Mode::Live), "9");
    assert_eq!(value_to_apply(Apply::Best, "9", &legs, Mode::Live), "2");
    assert_eq!(value_to_apply(Apply::Last, "9", &legs, Mode::Live), "4");
    assert_eq!(value_to_apply(Apply::Best, "9", &Vec::new(), Mode::Live), "9");
    assert_eq!(value_to_apply(Apply::Last, "9", &Vec::new(), Mode::Live), "9");
    for a in [Apply::Original, Apply::Best, Apply::Last] {
        assert_eq!(Apply::from_str(a.as_str()), a);
    }
    assert_eq!(Apply::from_str("?"), Apply::Original);
}

#[test]
fn the_newest_sweep_of_the_key_decides_whether_one_was_interrupted() {
    let file = |preset: &str, closed_line: bool, has_summary: bool| SweepFile {
        state: State {
            preset: preset.into(),
            key: "k".into(),
            restore: "6".into(),
            closed_line,
        },
        has_summary,
    };
    assert_eq!(interrupted(&vec![file("q", false, false), file("p", false, false)], "p", "k"), Some(1));
    assert_eq!(interrupted(&vec![file("p", true, false), file("p", false, false)], "p", "k"), None);
    assert_eq!(interrupted(&vec![file("p", false, true)], "p", "k"), None);
    assert_eq!(interrupted(&vec![file("p", false, false)], "p", "other"), None);
    let names: Vec<String> = ["sweep-1.jsonl", "bench-9.jsonl", "sweep-2.jsonl", "sweep-2.md"]
        .iter()
        .map(|n| n.to_string())
        .collect();
    assert_eq!(sweep_names(&names), ["sweep-2.jsonl", "sweep-1.jsonl"]);
}

#[test]
fn what_is_put_back_is_what_the_file_holds() {
    let text = "[Qwen]\r\nparallel = 4 ; slots\r\ndevice =\r\n";
    assert_eq!(current_value(text, "qwen", "parallel"), "4");
    assert_eq!(current_value(text, "qwen", "device"), "unset");
    assert_eq!(current_value(text, "gone", "parallel"), "unset");
    assert_eq!(value_to_restore(&opts(), text), "4");
    let told = Opts { restore_to: Some("6".into()), ..opts() };
    assert_eq!(value_to_restore(&told, text), "6");
    assert_eq!(leg_plan(&opts()).presets, ["Qwen"]);
    assert_eq!(leg_plan(&opts()).reps, default_plan().reps);
}

#[test]
fn what_a_sweep_says() {
    assert_eq!(
        opening_text(&opts()),
        "Sweeping parallel = 1, 2 on preset Qwen (live engine, 3 repetitions)."
    );
    let mut one = opts();
    one.plan.reps = 1;
    assert!(opening_text(&one).ends_with("1 repetition)."));
    assert_eq!(
        edit_text("k", "6", "s.jsonl"),
        "presets.ini is being edited; `k = 6` is restored at the end (also recorded in s.jsonl)."
    );
    assert_eq!(
        leftover_text("s.jsonl", "k", "4", "6"),
        "WARNING: s.jsonl never finished, so `k = 4` may be ITS leftover. That sweep recorded `6` as the value to put back; pass --restore-to 6 to restore that instead."
    );
    assert_eq!(
        report_leg(&leg("1", 10.0, ""), Mode::Live, 3),
        "    -> decode 10.0 t/s (+- 0.1, n=3) in 12 s, cold"
    );
    assert_eq!(
        report_leg(&leg("1", 0.0, "no GPU"), Mode::Live, 0),
        "    -> failed after 12 s: no GPU"
    );
    assert_eq!(
        report_leg(&Leg { secs: 3, ..Leg::default() }, Mode::Synthetic, 0),
        "    -> no  row in 3 s"
    );
}

#[test]
fn a_sweep_ends_well_or_says_everything_that_went_wrong() {
    let good = vec![leg("1", 10.0, "")];
    assert_eq!(sweep_outcome("k", &good, &None, &None, "s.md"), None);
    let bad = vec![leg("1", 0.0, "no GPU"), leg("2", 10.0, "")];
    assert_eq!(
        sweep_outcome("k", &bad, &Some("locked".into()), &Some("did not stop".into()), "s.md").as_deref(),
        Some("k = 1: no GPU; could not restore k: locked; did not stop (summary written to s.md)")
    );
}

#[test]
fn a_sweep_without_legs_has_a_summary_too() {
    let md = render_summary(&Summary {
        opts: &opts(),
        legs: &Vec::new(),
        ratios: &Vec::new(),
        original: "4",
        applied: "4",
        stamp: "now",
        server_version: "",
    });
    assert!(md.ends_with("## Results (tokens/s, mean +- sample stddev)\n\nNo legs ran.\n\n"));
    assert!(!md.contains("llama-server |"));
}
