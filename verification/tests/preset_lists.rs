use llama_cpp_config::bench::Mode;
use llama_cpp_config::model_scan::{catalogue, FileOption, Found};
use llama_cpp_config::presets::Preset;
use llama_cpp_config::selection::{
    bench_rows, clone_preset, filter_files, integration_rows, integrations_dirty, matches_lowered,
    plan_from_fields, preset_matches, prune_selection, run_index, save_problem,
    select_after_reload, synced_ids, toggle_preset, unique_id, WorkloadFields,
};

fn preset(id: &str, model: &str) -> Preset {
    Preset {
        id: id.into(),
        model: model.into(),
        ..Default::default()
    }
}

fn strings(v: &[&str]) -> Vec<String> {
    v.iter().map(|s| s.to_string()).collect()
}

#[test]
fn a_filter_matches_in_any_case_beyond_ascii_too() {
    let p = preset("Élan", "X.gguf");
    assert!(preset_matches(&p, "éLAN"));
    assert!(preset_matches(&p, "x.G"));
    assert!(preset_matches(&p, ""));
    assert!(!preset_matches(&p, "elan"));
    assert!(matches_lowered("abc", "m", "b"));
    assert!(!matches_lowered("abc", "m", "B"));
    let files = [
        FileOption { label: "Qwen.gguf".into(), path: "1".into() },
        FileOption { label: "Glm.gguf".into(), path: "2".into() },
    ];
    assert_eq!(filter_files(&files, "QWEN"), files[..1].to_vec());
    assert_eq!(filter_files(&files, "").len(), 2);
}

#[test]
fn the_selection_follows_the_id_then_the_place() {
    let all = [preset("a", ""), preset("b", ""), preset("c", "")];
    assert_eq!(select_after_reload(&all, Some("c"), "a", 0), 2);
    assert_eq!(select_after_reload(&all, Some("gone"), "a", 1), 0);
    assert_eq!(select_after_reload(&all, None, "b", 0), 1);
    assert_eq!(select_after_reload(&all, None, "gone", 2), 2);
    assert_eq!(select_after_reload(&all, None, "", 2), 2);
    assert_eq!(select_after_reload(&all, None, "gone", 3), 0);
    assert_eq!(select_after_reload(&[], None, "a", 0), -1);
}

#[test]
fn a_new_id_is_the_first_that_is_free() {
    assert_eq!(unique_id("q", &Vec::new()), "q");
    assert_eq!(unique_id("q", &strings(&["q"])), "q-2");
    assert_eq!(unique_id("q", &strings(&["q-3", "q", "q-2"])), "q-4");
    let p = Preset { ctx_size: Some(7), ..preset("q", "a.gguf") };
    assert_eq!(
        clone_preset(&p, "q-2", "b.gguf"),
        Preset { id: "q-2".into(), model: "b.gguf".into(), ctx_size: Some(7), ..Default::default() }
    );
    assert_eq!(save_problem("", "m").as_deref(), Some("Preset id is empty."));
    assert_eq!(save_problem("i", "").as_deref(), Some("Pick a model file before saving."));
    assert_eq!(save_problem("i", "m"), None);
}

#[test]
fn a_pending_switch_outlives_a_rebuild() {
    let all = [preset("a", "x-1.gguf"), preset("b", "y.gguf")];
    let enabled = strings(&["a"]);
    let rows = integration_rows(&all, &Vec::new(), &enabled);
    assert_eq!(rows[0].label, "X 1");
    assert!(rows[0].enabled && !rows[1].enabled);
    assert!(!integrations_dirty(&rows, &enabled));
    let rows = integration_rows(&all, &vec![("b".into(), true)], &enabled);
    assert!(rows[1].enabled);
    assert!(integrations_dirty(&rows, &enabled));
}

#[test]
fn a_renamed_preset_takes_its_entry_along() {
    let ids = strings(&["a", "b"]);
    assert_eq!(synced_ids(&ids, "a", &Some("c".into())), Some(strings(&["b", "c"])));
    assert_eq!(synced_ids(&ids, "a", &None), Some(strings(&["b"])));
    assert_eq!(synced_ids(&ids, "z", &None), None);
}

#[test]
fn checking_appends_and_unchecking_closes_the_gap() {
    let mut sel = Vec::new();
    for id in ["a", "b", "c", "b"] {
        toggle_preset(&mut sel, id);
    }
    assert_eq!(sel, ["a", "c"]);
    toggle_preset(&mut sel, "x");
    toggle_preset(&mut sel, "x");
    assert_eq!(sel, ["a", "c"]);
    let rows = bench_rows(&[preset("c", r"C:\m\c.gguf"), preset("b", "")], &sel);
    assert_eq!((rows[0].model.as_str(), rows[0].selected, rows[0].order), ("c.gguf", true, 2));
    assert_eq!((rows[1].selected, rows[1].order), (false, 0));
    assert_eq!(prune_selection(&sel, &strings(&["c", "d"])), ["c"]);
    assert_eq!(run_index(&strings(&["s1", "s2"]), "s2"), 1);
    assert_eq!(run_index(&strings(&["s1"]), ""), -1);
}

#[test]
fn fields_that_are_no_numbers_give_their_defaults() {
    let f = WorkloadFields {
        mode: "synthetic".into(),
        reps: "0".into(),
        temp: "0,5".into(),
        temp_default: false,
        max_tokens: "x".into(),
        prompt_lens: "1,2".into(),
        depths: "".into(),
        n_gen: " 64 ".into(),
    };
    let plan = plan_from_fields(&f, &strings(&["a"]), "hi", "p.txt");
    assert_eq!(plan.mode, Mode::Synthetic);
    assert_eq!(plan.reps, 1);
    assert_eq!(plan.temp.as_deref(), Some("0.5"));
    assert_eq!(plan.max_tokens, 256);
    assert_eq!(plan.prompt_lens, [1, 2]);
    assert!(plan.depths.is_empty());
    assert_eq!(plan.n_gen, 64);
    let own = WorkloadFields { temp_default: true, reps: "".into(), ..f.clone() };
    let plan = plan_from_fields(&own, &Vec::new(), "", "p.txt");
    assert_eq!(plan.temp, None);
    assert_eq!(plan.reps, 3);
    let bad = WorkloadFields { temp: "warm".into(), ..f };
    assert_eq!(plan_from_fields(&bad, &Vec::new(), "", "").temp.as_deref(), Some("0"));
}

#[test]
fn a_catalogue_is_sorted_and_holds_no_path_twice() {
    let found = |name: &str, path: &str, label: &str| Found {
        name: name.into(),
        path: path.into(),
        label: label.into(),
    };
    let list = catalogue(&vec![
        found("b.gguf", r"C:\b.gguf", "b.gguf"),
        found("A.GGUF", r"C:\A.GGUF", "A.GGUF"),
        found("x.txt", r"C:\x.txt", "x.txt"),
        found(".gguf", r"C:\.gguf", ".gguf"),
        found("B.gguf", r"c:\B.gguf", "again"),
        found("m-00002-of-00003.gguf", r"C:\m2", "m2"),
        found("m-00001-of-00003.gguf", r"C:\m1", "M1"),
    ]);
    let labels: Vec<&str> = list.iter().map(|f| f.label.as_str()).collect();
    assert_eq!(labels, ["A.GGUF", "b.gguf", "M1"]);
}
