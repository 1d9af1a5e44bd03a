use llama_cpp_config::devices::{build_options, parse};

const SAMPLE: &str = "Available devices:\n  \
    CUDA0: NVIDIA GeForce RTX 4070 SUPER (12281 MiB, 10844 MiB free)\n  \
    Vulkan0: AMD Radeon(TM) Graphics (33593 MiB, 31913 MiB free)\n  \
    Vulkan1: NVIDIA GeForce RTX 4070 SUPER (11997 MiB, 10844 MiB free)\n";

#[test]
fn parses_device_ids_and_labels() {
    let devs = parse(SAMPLE);
    assert_eq!(devs.len(), 3);
    assert_eq!(devs[0].id, "CUDA0");
    assert_eq!(devs[1].id, "Vulkan0");
    assert_eq!(devs[2].id, "Vulkan1");
    assert!(devs[0]
        .label
        .starts_with("CUDA0 — NVIDIA GeForce RTX 4070 SUPER"));
}

#[test]
fn parses_name_and_vram_out_of_the_description() {
    let devs = parse(SAMPLE);
    assert_eq!(devs[0].name, "NVIDIA GeForce RTX 4070 SUPER");
    assert_eq!(devs[0].total_mib, 12281);
    assert_eq!(devs[0].free_mib, 10844);
    // A name that itself contains parens: only the LAST one is the VRAM.
    assert_eq!(devs[1].name, "AMD Radeon(TM) Graphics");
    assert_eq!(devs[1].total_mib, 33593);
}

#[test]
fn a_description_without_vram_keeps_its_whole_text_as_the_name() {
    let devs = parse("  SYCL0: Some Accelerator\n");
    assert_eq!(devs[0].name, "Some Accelerator");
    assert_eq!(devs[0].total_mib, 0);
    assert_eq!(devs[0].free_mib, 0);
    assert!(devs[0].vram_summary().is_empty());
}

#[test]
fn vram_summary_renders_gib() {
    let devs = parse(SAMPLE);
    assert_eq!(devs[0].vram_summary(), "12.0 GB (10.6 free)");
}

#[test]
fn cpu_is_flagged_so_the_gpu_table_can_skip_it() {
    let devs = parse("  CPU: AMD Ryzen 9 9900X (63090 MiB, 48233 MiB free)\n");
    assert!(devs[0].is_cpu());
    assert!(!parse(SAMPLE)[0].is_cpu());
}

#[test]
fn ignores_header_and_blank_lines() {
    assert!(parse("Available devices:\n\n").is_empty());
    assert!(parse("").is_empty());
}

#[test]
fn skips_non_indented_and_multiword_keys() {
    // A non-indented "X: y" (e.g. a banner) must not be taken as a device.
    assert!(parse("ggml: using CUDA backend\n").is_empty());
    // Indented but the key has spaces → not a device token.
    assert!(parse("  load time: 5 ms\n").is_empty());
}

#[test]
fn dedups_repeated_ids() {
    let devs = parse("  CUDA0: a\n  CUDA0: b\n");
    assert_eq!(devs.len(), 1);
}

#[test]
fn build_options_default_when_empty() {
    let devs = parse(SAMPLE);
    let (labels, values, idx) = build_options(&devs, "", "(default)");
    assert_eq!(idx, 0);
    assert_eq!(values[0], "");
    assert_eq!(labels[0], "(default)");
    assert_eq!(values.len(), 4); // default + 3 devices
}

#[test]
fn build_options_selects_matching_device() {
    let devs = parse(SAMPLE);
    let (_labels, values, idx) = build_options(&devs, "Vulkan0", "(default)");
    assert_eq!(values[idx as usize], "Vulkan0");
}

#[test]
fn build_options_matches_case_insensitively() {
    let devs = parse(SAMPLE);
    let (_labels, values, idx) = build_options(&devs, "cuda0", "(default)");
    assert_eq!(values[idx as usize], "CUDA0");
}

#[test]
fn build_options_preserves_stale_value_as_custom() {
    let devs = parse(SAMPLE);
    let (labels, values, idx) = build_options(&devs, "SYCL3", "(default)");
    assert_eq!(idx, 1);
    assert_eq!(values[1], "SYCL3");
    assert!(labels[1].starts_with("(custom)"));
}
