use llama_cpp_config::ini::read_all;
use llama_cpp_config::preset_file::{self, load_all, preset_of, render_section};
use llama_cpp_config::presets::Preset;
use llama_cpp_config::server_cfg::ServerConfig;
use llama_cpp_config::server_file;

fn preset(id: &str) -> Preset {
    Preset {
        id: id.into(),
        model: r"C:\models\m.gguf".into(),
        ctx_size: Some(65536),
        flash_attn: Some(true),
        jinja: Some(false),
        tensor_split: "3,1".into(),
        temp: Some("0.7".into()),
        n_gpu_layers_draft: Some(-1),
        chat_template_kwargs: r#"{"enable_thinking":true}"#.into(),
        ..Preset::default()
    }
}

/// Keys that hold nothing stay out; the others stand in their order.
#[test]
fn a_section_has_the_keys_that_hold_something() {
    let p = Preset {
        id: "Qwen".into(),
        model: "m.gguf".into(),
        reasoning: String::new(),
        reasoning_format: String::new(),
        cache_type_k: "q8_0".into(),
        cache_type_v: String::new(),
        flash_attn: Some(false),
        top_k: Some(40),
        temp: Some("0.6".into()),
        ..blank()
    };
    assert_eq!(
        render_section(&p),
        "[Qwen]\r\ncache-type-k = q8_0\r\nflash-attn = false\r\nmodel = m.gguf\r\n\
         temp = 0.6\r\ntop-k = 40\r\n"
    );
}

/// A preset without a value under any key.
fn blank() -> Preset {
    let text = "[x]\n";
    preset_of(&read_all(text)[0])
}

#[test]
fn a_preset_reads_back_from_its_section() {
    let p = preset("Qwen");
    assert_eq!(load_all(&render_section(&p)), vec![p]);
    let q = Preset::default();
    assert_eq!(load_all(&render_section(&q)), vec![q]);
}

#[test]
fn a_saved_preset_takes_its_place_and_leaves_the_others() {
    let a = preset("A");
    let b = Preset { ctx_size: Some(1024), ..preset("B") };
    let c = Preset { temp: None, ..preset("C") };
    let mut text = String::new();
    for p in [&a, &b, &c] {
        text = preset_file::save(&text, p).unwrap();
    }
    assert_eq!(load_all(&text), vec![a.clone(), b, c.clone()]);
    let again = Preset { ctx_size: None, top_p: Some("0.95".into()), ..preset("B") };
    text = preset_file::save(&text, &again).unwrap();
    assert_eq!(load_all(&text), vec![a, again, c]);
}

/// A value that a comment sign would cut short is refused, and its key is named.
#[test]
fn values_that_would_not_reload_are_refused() {
    let p = Preset { override_tensor: "a=CUDA0;b=CPU".into(), ..preset("A") };
    let e = preset_file::save("", &p).unwrap_err();
    assert!(e.contains("override-tensor"), "{e}");
    let c = ServerConfig { models_dir: Some(r"D:\a;b".into()), ..ServerConfig::default() };
    let e = server_file::save("", &c).unwrap_err();
    assert!(e.contains("ModelsDir"), "{e}");
}

/// A decimal of the file becomes the number nearest to it; a word that is no number is
/// no value.
#[test]
fn values_of_a_preset_file_are_read_leniently() {
    let text = "; a comment\n[A]\nmodel = m.gguf\ntemp = 0.70\ntop-p = x\nctx-size = 12x\n\
                flash-attn = perhaps\nmin-p = 0.12345678901234567\n";
    let p = &load_all(text)[0];
    assert_eq!(p.id, "A");
    assert_eq!(p.model, "m.gguf");
    assert_eq!(p.temp.as_deref(), Some("0.7"));
    assert_eq!(p.top_p, None);
    assert_eq!(p.ctx_size, None);
    assert_eq!(p.flash_attn, None);
    assert_eq!(p.min_p, Some(format!("{}", "0.12345678901234567".parse::<f64>().unwrap())));
}

#[test]
fn settings_read_back_from_their_section() {
    let c = ServerConfig {
        port: Some(9001),
        hostname: Some("0.0.0.0".into()),
        mlock: Some(true),
        no_mmap: Some(false),
        threads: Some(12),
        models_dir: Some(r"D:\models".into()),
        tensor_split: Some("3,1".into()),
        webui_mcp_proxy: Some(false),
        opencode_base_url: Some("http://10.0.0.1:9001/v1".into()),
        ..ServerConfig::default()
    };
    let text = server_file::save("[Other]\nKey = 1\n", &c).unwrap();
    assert_eq!(server_file::load(&text), c);
    assert!(text.starts_with("[Other]\nKey = 1\n"), "{text}");
    let d = ServerConfig { port: Some(8081), ..c };
    let text = server_file::save(&text, &d).unwrap();
    assert_eq!(server_file::load(&text), d);
    assert_eq!(read_all(&text).len(), 2);
    assert_eq!(server_file::load(""), ServerConfig::default());
}
