use llama_cpp_config::bench::{
    finished_text, live_previews, parse_int_list, prompt_of_file, prompt_summary, render_int_list,
    run_paths, seeds_long, warmup_body, Measured, Mode, Plan,
};
use llama_cpp_config::report::RunMeta;
use llama_cpp_config::runs::{
    load_run, point_json, run_header_json, run_stamps, sample_json, stamp_of_name,
};
use llama_cpp_config::exec::sample_detail;
use llama_cpp_config::bench::Timings;
use llama_cpp_config::stamp::{stamp, stamp_label, stamp_human};

/// The plan a user begins with, its prompt file in the configuration directory.
fn default_plan() -> Plan {
    Plan::default_at(r"C:\Users\u\AppData\Local\llama.cpp\config\bench-prompt.txt")
}

fn point(preset: &str, test: &str, mean: &str, note: &str) -> Measured {
    Measured {
        preset: preset.into(),
        test: test.into(),
        mean: mean.into(),
        sd: "0.25".into(),
        n: 3,
        note: note.into(),
    }
}

fn plan(presets: &[&str]) -> Plan {
    Plan {
        presets: presets.iter().map(|p| p.to_string()).collect(),
        prompt: "hi".into(),
        ..default_plan()
    }
}

#[test]
fn a_run_reads_back_as_it_was_written() {
    let mut file = String::new();
    for line in [
        run_header_json(&plan(&["b", "a"]), &RunMeta::default()),
        point_json(&point("b", "decode", "20.5", "")),
        point_json(&point("a", "decode", "30.125", "note \"x\"\n")),
        // Revised: the last line of a preset and test counts, in its old place.
        point_json(&point("b", "decode", "21.5", "")),
    ] {
        assert!(!line.contains('\n'));
        file.push_str(&line);
        file.push('\n');
    }
    file.push_str("{\"kind\":\"point\",\"pre");
    let run = load_run(&file);
    assert_eq!(run.mode_label, "live");
    assert_eq!(run.presets, ["b", "a"]);
    assert_eq!(
        run.points,
        vec![
            point("b", "decode", "21.5", ""),
            point("a", "decode", "30.125", "note \"x\"\n"),
        ]
    );
}

#[test]
fn a_preset_that_only_the_points_name_comes_last() {
    let file = format!(
        "{}\n{}\n",
        run_header_json(&plan(&["a"]), &RunMeta::default()),
        point_json(&point("z", "decode", "1.5", ""))
    );
    assert_eq!(load_run(&file).presets, ["a", "z"]);
    assert!(load_run("").points.is_empty());
}

#[test]
fn samples_stand_beside_the_points_and_are_not_read_as_points() {
    let t = Timings {
        prompt_n: 1,
        prompt_tps: "2.5".into(),
        predicted_n: 3,
        predicted_tps: "4.5".into(),
        cache_n: 0,
        draft_n: 0,
        draft_accepted: 0,
    };
    let line = sample_json("p", "decode", 2, "4.5", sample_detail(&t, &None));
    let v: serde_json::Value = serde_json::from_str(&line).unwrap();
    assert_eq!(v["kind"], "sample");
    assert_eq!(v["rep"], 2);
    assert_eq!(v["tps"], 4.5);
    assert!(load_run(&line).points.is_empty());
}

#[test]
fn runs_are_listed_newest_first() {
    let names: Vec<String> = [
        "bench-20260101-000000.jsonl",
        "sweep-20270101-000000.jsonl",
        "bench-20260301-000000.jsonl",
        "bench-20260301-000000.md",
        "bench-.jsonl",
    ]
    .iter()
    .map(|n| n.to_string())
    .collect();
    assert_eq!(
        run_stamps(&names),
        ["20260301-000000", "20260101-000000", ""]
    );
    let (jsonl, md, log) = run_paths("20260101-000000");
    assert_eq!(stamp_of_name(&jsonl).as_deref(), Some("20260101-000000"));
    assert_eq!(stamp_of_name(&md), None);
    assert_eq!(log, "bench-20260101-000000.log");
}

#[test]
fn stamps_round_trip_through_their_label() {
    for secs in [0u64, 951_782_399, 951_782_400, 1_709_164_800, 4_102_444_799] {
        assert_eq!(stamp_label(&stamp(secs)), stamp_human(secs));
    }
    assert_eq!(stamp_human(951_782_400), "2000-02-29 00:00:00 UTC");
}

#[test]
fn prompts_are_read_and_told_apart() {
    assert_eq!(
        prompt_of_file("\u{feff}line one\r\nline two", "p.txt"),
        Ok("line one\nline two".into())
    );
    assert_eq!(
        prompt_of_file("   \r\n  ", "empty.txt"),
        Err("the prompt file empty.txt is empty".into())
    );
    assert_eq!(
        prompt_summary("é"),
        "1 chars, 2 bytes, sha256 4a99557e4033"
    );
    let long = Some("bench-prompt-long.txt".to_string());
    assert!(seeds_long(&long.clone(), &long));
    assert!(!seeds_long(&Some("my-own.txt".into()), &long));
    assert!(!seeds_long(&None, &None));
}

#[test]
fn lists_of_numbers_are_read_and_written() {
    assert_eq!(parse_int_list(" 1, x, -2,,3"), [1, -2, 3]);
    assert_eq!(render_int_list(&[1, -2, 3]), "1,-2,3");
    assert_eq!(render_int_list(&[]), "");
}

#[test]
fn the_requests_of_a_run() {
    let v: serde_json::Value = serde_json::from_str(&warmup_body("p")).unwrap();
    assert_eq!(v["model"], "p");
    assert_eq!(v["max_tokens"], 1);
    assert_eq!(v["messages"][0]["content"], "hi");
    let none = live_previews(8080, &Vec::new(), &plan(&[]));
    assert_eq!(none, "Select one or more presets above to see what will run.");
    let two = live_previews(8080, &vec!["a".into(), "b".into(), "c".into()], &plan(&[]));
    assert!(two.starts_with("POST http://127.0.0.1:8080/v1/chat/completions\n{"));
    assert!(two.ends_with("\n\nThen the same request for: b, c (only \"model\" differs)."));
    assert_eq!(
        finished_text("r.md", Mode::Live),
        "Benchmark finished. Report: r.md."
    );
    assert_eq!(
        finished_text("r.md", Mode::Synthetic),
        "Benchmark finished. Report: r.md. llama-server is still stopped; start it when you need it."
    );
}
