use llama_cpp_config::gguf::{
    draft_line, family_tokens, ftype_name, ggml_type_name, gpu_has_get_rows, token_overlap, Entry,
    ExternalDraft, Metadata, MmprojInfo, ModelInfo, Tensor,
};

fn text(s: &str) -> Entry {
    Entry::Text(s.to_string())
}

fn map(pairs: Vec<(&str, Entry)>) -> Metadata {
    map_t(pairs, Vec::new())
}

/// `map` plus the tensors of the header.
fn map_t(pairs: Vec<(&str, Entry)>, tensors: Vec<(&str, (u32, u64))>) -> Metadata {
    Metadata {
        values: pairs
            .into_iter()
            .map(|(k, v)| (k.to_string(), v))
            .collect(),
        tensors: tensors
            .into_iter()
            .map(|(name, (kind, bytes))| Tensor {
                name: name.to_string(),
                kind,
                bytes,
            })
            .collect(),
    }
}

#[test]
fn extracts_moe_model_with_layer_split() {
    let m = map(vec![
        ("general.architecture", text("deepseek2")),
        ("general.file_type", Entry::Number(15)),
        ("general.size_label", text("236B-A21B")),
        ("deepseek2.block_count", Entry::Number(48)),
        ("deepseek2.leading_dense_block_count", Entry::Number(3)),
        ("deepseek2.context_length", Entry::Number(163840)),
        ("deepseek2.expert_count", Entry::Number(160)),
        ("deepseek2.expert_used_count", Entry::Number(6)),
        ("deepseek2.expert_shared_count", Entry::Number(2)),
        ("deepseek2.attention.head_count", Entry::Number(128)),
        ("deepseek2.attention.head_count_kv", Entry::Number(128)),
    ]);
    let info = ModelInfo::from_kv(&m).unwrap();
    assert!(info.is_moe);
    assert_eq!(info.quant, "Q4_K_M");
    assert_eq!(
        info.kind_line(),
        "MoE — 160 experts, 6 active/tok, 2 shared"
    );
    assert_eq!(
        info.moe_offload_line(),
        "45 of 48 layers hold experts (first 3 dense)  ·  saves VRAM (slower)"
    );
    assert_eq!(info.arch_quant_line(), "deepseek2  ·  Q4_K_M  ·  236B-A21B");
    assert_eq!(info.layers_ctx_line(), "48 layers  ·  trained ctx 163,840");
    assert_eq!(info.attn_line(), "128 heads (MHA)");
}

#[test]
fn extracts_dense_model_and_gqa() {
    let m = map(vec![
        ("general.architecture", text("gemma3")),
        ("general.file_type", Entry::Number(18)),
        ("gemma3.block_count", Entry::Number(48)),
        ("gemma3.attention.head_count", Entry::Number(32)),
        ("gemma3.attention.head_count_kv", Entry::Number(8)),
    ]);
    let info = ModelInfo::from_kv(&m).unwrap();
    assert!(!info.is_moe);
    assert_eq!(info.kind_line(), "Dense");
    assert!(info.moe_offload_line().is_empty());
    assert_eq!(info.attn_line(), "32 heads / 8 KV (GQA 4×)");
    assert_eq!(info.quant, "Q6_K");
}

#[test]
fn chat_template_line_classifies_jinja_legacy_and_none() {
    // No template metadata → "none", and the raw value is None.
    let m = map(vec![("general.architecture", text("llama"))]);
    let info = ModelInfo::from_kv(&m).unwrap();
    assert_eq!(info.chat_template_line(), "none");
    assert!(info.chat_template.is_none());

    // Jinja markers ({% / {{) → "Jinja (embedded)".
    let m = map(vec![
        ("general.architecture", text("llama")),
        (
            "tokenizer.chat_template",
            text("{% for message in messages %}{{ message.content }}{% endfor %}"),
        ),
    ]);
    let info = ModelInfo::from_kv(&m).unwrap();
    assert_eq!(info.chat_template_line(), "Jinja (embedded)");
    assert!(info
        .chat_template
        .as_deref()
        .is_some_and(|t| t.contains("{%")));

    // Marker-less string (e.g. a builtin name) → "embedded (non-Jinja)".
    let m = map(vec![
        ("general.architecture", text("llama")),
        ("tokenizer.chat_template", text("chatml")),
    ]);
    let info = ModelInfo::from_kv(&m).unwrap();
    assert_eq!(info.chat_template_line(), "embedded (non-Jinja)");
}

#[test]
fn draft_file_line_surfaces_dflash_block_size() {
    let m = map(vec![
        ("general.architecture", text("dflash")),
        ("general.file_type", Entry::Number(1)),
        ("dflash.block_count", Entry::Number(12)),
        ("dflash.block_size", Entry::Number(16)),
    ]);
    let info = ModelInfo::from_kv(&m).unwrap();
    assert_eq!(
        info.draft_file_line(),
        "dflash  ·  F16  ·  12 layers  ·  block_size 16 (n-max ≤ 15)"
    );
}

#[test]
fn extracts_mmproj_vision() {
    let m = map(vec![
        ("clip.projector_type", text("gemma3")),
        ("clip.has_vision_encoder", Entry::Flag(true)),
        ("clip.vision.block_count", Entry::Number(27)),
        ("clip.vision.image_size", Entry::Number(896)),
        ("clip.vision.patch_size", Entry::Number(14)),
    ]);
    let mp = MmprojInfo::from_kv(&m).unwrap();
    assert!(mp.has_vision);
    assert_eq!(
        mp.mmproj_line(),
        "gemma3  ·  vision  ·  27 enc. layers  ·  896px / patch 14"
    );
}

#[test]
fn non_clip_file_is_not_mmproj() {
    let m = map(vec![("general.architecture", text("llama"))]);
    assert!(MmprojInfo::from_kv(&m).is_none());
}

#[test]
fn family_tokens_drop_quant_noise() {
    let t = family_tokens("Qwen3-30B-A3B-Q4_K_M.gguf");
    assert!(t.contains(&"qwen3".to_string()));
    assert!(t.contains(&"30b".to_string()));
    assert!(t.contains(&"a3b".to_string()));
    assert!(!t
        .iter()
        .any(|x| x == "q4" || x == "k" || x == "m" || x == "gguf"));
}

// The "> 1 shared tokens" match threshold means DISTINCT tokens: a name
// repeating its family token (HF repo + file name both carrying it) must
// not clear the bar with a single real match.
#[test]
fn token_overlap_counts_distinct_tokens_only() {
    let model = family_tokens("GLM-4.5-Air-GLM-4.5-Air-Q4_K_M.gguf");
    let drafter = family_tokens("glm-dflash.gguf");
    assert_eq!(token_overlap(&model, &drafter), 1);
    let real = family_tokens("GLM-4.5-Air-DFlash.gguf");
    assert!(token_overlap(&model, &real) > 1);
}

#[test]
fn draft_line_reports_embedded_and_external() {
    let m = map(vec![
        ("general.architecture", text("glm4moe")),
        ("glm4moe.expert_count", Entry::Number(128)),
        ("glm4moe.nextn_predict_layers", Entry::Number(1)),
    ]);
    let info = ModelInfo::from_kv(&m).unwrap();
    let ext = ExternalDraft {
        mtp_count: 0,
        dflash_count: 2,
        best: Some(("glm-dflash.gguf".into(), "DFlash")),
    };
    let line = draft_line(&info, &ext);
    assert!(line.contains("embedded MTP: yes (1 nextn layer)"));
    assert!(line.contains("DFlash looks compatible (glm-dflash.gguf)"));
}

/// The whole point of the Embeddings row: the FILE NAME does not tell you
/// whether pinning `token_embd` is safe. These are the real headers of three
/// Unsloth "XL" builds of the SAME model — the Q6_K_XL keeps its embedding
/// table at Q8_0 (a type ggml-cuda/hip can `get_rows` on GPU), while the
/// Q5/Q4 builds drop it to a K-quant, which has no GPU kernel. Pinning those
/// two round-trips the table to the host every token: measured 2.8 t/s (Q4_K)
/// and 1.9 t/s (Q5_K) against 21-52 t/s unpinned.
#[test]
fn embd_verdict_follows_the_tensor_type_not_the_file_name() {
    let base = || vec![("general.architecture", text("qwen35"))];

    // Qwen3.6-27B-UD-MTP-Q6_K_XL.gguf — embd is Q8_0: whitelisted.
    let info = ModelInfo::from_kv(&map_t(
        base(),
        vec![("token_embd.weight", (8, 1_351_614_464))],
    ))
    .unwrap();
    assert_eq!(info.embd_line(), "Q8_0  ·  1.26 GiB");
    assert!(info.embd_pin_warning().is_empty());

    // Qwen3.6-27B-UD-Q4_K_XL.gguf — embd is Q4_K: no GPU get_rows. The ROW is
    // unchanged in shape (facts only); the VERDICT lives in the warning.
    let info = ModelInfo::from_kv(&map_t(
        base(),
        vec![("token_embd.weight", (12, 715_128_832))],
    ))
    .unwrap();
    assert_eq!(info.embd_line(), "Q4_K  ·  682 MiB");
    assert!(info.embd_pin_warning().contains("Q4_K"));

    // Q5_K (13) is a K-quant too — the trap is not specific to Q4.
    let info = ModelInfo::from_kv(&map_t(
        base(),
        vec![("token_embd.weight", (13, 873_463_808))],
    ))
    .unwrap();
    assert_eq!(info.embd_line(), "Q5_K  ·  833 MiB");
    assert!(info.embd_pin_warning().contains("Q5_K"));

    // Unknown type (no `token_embd.weight`, or no DLL to read it with) must
    // NOT warn: a metadata read we couldn't do is not evidence of a problem.
    // This is also what keeps the e2e fixture's unreadable GGUF quiet.
    let info = ModelInfo::from_kv(&map(base())).unwrap();
    assert_eq!(info.embd_line(), "n/a");
    assert!(info.embd_pin_warning().is_empty());
}

/// `ggml_type` and `general.file_type` (LLAMA_FTYPE) are different enums that
/// overlap numerically — 7 means Q8_0 as an ftype but Q5_1 as a ggml_type, and
/// 14 means Q4_K_S vs Q6_K. Reading a tensor's type through `ftype_name` (or
/// vice versa) would mislabel almost everything, so pin the divergence.
#[test]
fn ggml_type_and_ftype_enums_are_not_interchangeable() {
    assert_eq!(ggml_type_name(7), "Q5_1");
    assert_eq!(ftype_name(7), "Q8_0");
    assert_eq!(ggml_type_name(14), "Q6_K");
    assert_eq!(ftype_name(14), "Q4_K_S");
    // BF16 and Q8_0 are get_rows-capable; every K-quant and IQ-quant is not.
    assert!(gpu_has_get_rows(30) && gpu_has_get_rows(8));
    for k_quant in [10u32, 11, 12, 13, 14, 15, 23] {
        assert!(!gpu_has_get_rows(k_quant), "type {k_quant} must not be pinnable");
    }
}

#[test]
fn moe_offload_line_pure_moe_covers_all_layers() {
    let m = map(vec![
        ("general.architecture", text("qwen3moe")),
        ("qwen3moe.block_count", Entry::Number(48)),
        ("qwen3moe.expert_count", Entry::Number(128)),
        ("qwen3moe.expert_used_count", Entry::Number(8)),
    ]);
    let info = ModelInfo::from_kv(&m).unwrap();
    assert_eq!(info.kind_line(), "MoE — 128 experts, 8 active/tok");
    assert_eq!(
        info.moe_offload_line(),
        "all 48 layers hold experts  ·  saves VRAM (slower)"
    );
}
