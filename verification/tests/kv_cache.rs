use llama_cpp_config::devices::DeviceOption;
use llama_cpp_config::kv_cache::{warning, Input};

fn dev(id: &str) -> DeviceOption {
    DeviceOption {
        id: id.into(),
        label: id.into(),
        name: String::new(),
        total_mib: 0,
        free_mib: 0,
    }
}

fn input<'a>(device: &'a str, k: &'a str, v: &'a str) -> Input<'a> {
    Input {
        device,
        server_device: "",
        probed: &[],
        cache_type_k: k,
        cache_type_v: v,
        flash_attn: "",
        draft: None,
    }
}

#[test]
fn matched_pairs_with_native_kernels_are_silent_everywhere() {
    for t in ["default", "f16", "bf16", "q8_0", "q5_1", "q5_0", "q4_0"] {
        for dev in ["ROCm1", "CUDA0", "Vulkan1", "ROCm1,CUDA0"] {
            assert_eq!(warning(&input(dev, t, t)), "", "{dev} {t}");
        }
    }
}

#[test]
fn iq4_nl_is_fine_on_vulkan_and_falls_to_the_cpu_on_cuda_and_rocm() {
    assert_eq!(warning(&input("Vulkan1", "iq4_nl", "iq4_nl")), "");
    for dev in ["ROCm1", "CUDA0", "Vulkan1,CUDA0"] {
        let w = warning(&input(dev, "iq4_nl", "iq4_nl"));
        assert!(w.contains("on the CPU"), "{dev}: {w}");
    }
    // An unquantized V leaves flash attention on auto, which turns it off.
    let w = warning(&input("CUDA0", "iq4_nl", "f16"));
    assert!(w.contains("without flash attention"), "{w}");
}

#[test]
fn mixed_pairs_take_the_slow_decode_path_on_cuda_and_rocm_only() {
    let w = warning(&input("ROCm1", "q8_0", "q5_0"));
    assert!(w.contains("no native FlashAttention decode kernel"), "{w}");
    assert!(w.contains("K q8_0 / V q5_0"), "{w}");
    assert_eq!(warning(&input("Vulkan1", "q8_0", "q5_0")), "");
    // q4_1 is a supported type with no compiled pair of its own.
    assert!(warning(&input("CUDA0", "q4_1", "q4_1")).contains("no native"));
    // With flash attention off there is no FA kernel to miss (an f16 V loads).
    let mut off = input("CUDA0", "q8_0", "f16");
    off.flash_attn = "off";
    assert_eq!(warning(&off), "");
}

#[test]
fn a_quantized_v_with_flash_attention_off_does_not_load() {
    let mut i = input("Vulkan1", "q8_0", "q8_0");
    i.flash_attn = "off";
    assert!(warning(&i).contains("does not load"));
}

#[test]
fn a_type_llama_cpp_does_not_accept_is_reported_before_any_kernel_check() {
    let w = warning(&input("Vulkan1", "q6_K", "q8_0"));
    assert!(w.contains("q6_K is not a KV cache type"), "{w}");
    assert!(
        w.contains("iq4_nl"),
        "the accepted list is spelled out: {w}"
    );
}

#[test]
fn vulkan_needs_bf16_on_both_or_neither() {
    assert!(warning(&input("Vulkan1", "bf16", "f16")).contains("bf16 on both"));
    assert_eq!(warning(&input("Vulkan1", "bf16", "bf16")), "");
}

#[test]
fn the_server_pin_wins_and_nothing_pinned_means_every_probed_gpu() {
    let mut i = input("Vulkan1", "iq4_nl", "iq4_nl");
    i.server_device = "ROCm1";
    assert!(warning(&i).contains("on the CPU"));

    let probed = [dev("CUDA0"), dev("Vulkan1"), dev("CPU")];
    let mut none = input("", "iq4_nl", "iq4_nl");
    none.probed = &probed;
    assert!(warning(&none).contains("on the CPU"));
    // No pin and no probe yet: nothing to judge the kernels against.
    assert_eq!(warning(&input("", "iq4_nl", "iq4_nl")), "");
}

#[test]
fn the_draft_cache_is_checked_on_its_own_line() {
    let mut i = input("ROCm1", "q8_0", "q8_0");
    i.draft = Some(("iq4_nl", "iq4_nl"));
    let w = warning(&i);
    assert!(w.starts_with("Draft KV cache:"), "{w}");
    assert_eq!(w.lines().count(), 1);
    // "default" for the draft is f16, which is always fine.
    i.draft = Some(("default", "default"));
    assert_eq!(warning(&i), "");
}
