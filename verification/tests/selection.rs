use llama_cpp_config::presets::Preset;
use llama_cpp_config::selection::preset_summaries;

fn p(id: &str, model: &str) -> Preset {
    Preset {
        id: id.into(),
        model: model.into(),
        ..Default::default()
    }
}

// The invariant select_preset() depends on: a filtered row's `orig_index`
// points into the UNFILTERED presets vector (the list `for` index is not a
// stable handle once rows are dropped).
#[test]
fn preset_summaries_keep_orig_index_under_filter() {
    let all = vec![
        p("alpha", r"C:\m\models\a.gguf"),
        p("bravo", r"C:\m\models\qwen3.gguf"),
        p("charlie", r"C:\m\models\c.gguf"),
    ];

    // Filter matches case-insensitively on the id OR the model path.
    let rows = preset_summaries(&all, "QWEN");
    assert_eq!(rows.len(), 1);
    assert_eq!(rows[0].id.as_str(), "bravo");
    assert_eq!(rows[0].orig_index, 1, "index into the unfiltered vector");

    let rows = preset_summaries(&all, "charlie");
    assert_eq!(rows.len(), 1);
    assert_eq!(rows[0].orig_index, 2);

    // No filter: everything, in order, indices dense.
    let rows = preset_summaries(&all, "");
    assert_eq!(rows.len(), 3);
    assert!(rows
        .iter()
        .enumerate()
        .all(|(i, r)| r.orig_index == i as i32));

    // No match: empty list (the UI then shows -1 / a blank form).
    assert!(preset_summaries(&all, "zzz").is_empty());
}
