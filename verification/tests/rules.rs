use llama_cpp_config::bench::{Mode, Plan};
use llama_cpp_config::cli::ServerSet;
use llama_cpp_config::devices;
use llama_cpp_config::form::{form_to_preset, preset_to_form, tri_bool, tri_state};
use llama_cpp_config::gguf::{external_drafters, ExternalDraft};
use llama_cpp_config::gpu_split::{
    block_counts, gpu_count, gpu_weight_total, move_by, parse_weights, picks, render, set_blocks,
    set_even, toggle, GpuSelection, Layout,
};
use llama_cpp_config::http::{dechunk, parse_response, request_text};
use llama_cpp_config::ini::{
    delete_section, parse_bool, parse_int, read_all, read_section, rename_section, replace_key,
    replace_section, RenameError,
};
use llama_cpp_config::kv_cache::{check, native_types, types, warning, Input};
use llama_cpp_config::machine::{stamp, Adapter};
use llama_cpp_config::model_scan::{build_draft_options, build_options, Category, FileOption};
use llama_cpp_config::net_ifaces::{
    build_rows, dotted_text, interface_rows, netmask_to_prefix, network_of, parse_hosts, toggle as toggle_host,
    BindOption, Iface, ALL_INTERFACES,
};
use llama_cpp_config::presets::Preset;
use llama_cpp_config::results::{put, Point, Seen};
use llama_cpp_config::server_cfg::ServerConfig;
use llama_cpp_config::sha256;

/// The plan a user begins with, its prompt file in the configuration directory.
fn default_plan() -> Plan {
    Plan::default_at(r"C:\Users\u\AppData\Local\llama.cpp\config\bench-prompt.txt")
}

fn sel(device: &str, tensor_split: &str) -> GpuSelection {
    GpuSelection {
        device: device.into(),
        tensor_split: tensor_split.into(),
    }
}

// ── GPU distribution ──────────────────────────────────────────────────────

#[test]
fn a_rendered_selection_reads_back() {
    let s = render(&vec![("A".into(), 3), ("B".into(), 0), ("C".into(), 1)]);
    assert_eq!(s, sel("A,B,C", "3,0,1"));
    assert_eq!(
        picks(&s),
        [("A".to_string(), 3), ("B".to_string(), 0), ("C".to_string(), 1)]
    );
    assert_eq!(gpu_count(&s), 3);
    assert_eq!(gpu_weight_total(&s), 4);
}

#[test]
fn checking_and_unchecking_a_device_gives_the_selection_back() {
    for s in [sel("", ""), sel("A", ""), sel("A,B", ""), sel("A,B", "2,1")] {
        assert_eq!(toggle(&toggle(&s, "X"), "X"), s);
    }
}

#[test]
fn a_move_keeps_every_device_and_its_weight() {
    let s = sel("A,B,C,D", "1,2,3,4");
    for delta in -4..=4 {
        let mut now = picks(&move_by(&s, "B", delta));
        now.sort();
        assert_eq!(now, picks(&s), "{delta}");
    }
}

#[test]
fn blocks_are_counted_out_completely() {
    let layout = Layout::new(48, -1).unwrap();
    for weights in [vec![1, 1], vec![7, 2, 5], vec![0, 1], vec![100, 1, 1, 1]] {
        let counts = block_counts(&weights, layout).unwrap();
        assert_eq!(counts.iter().sum::<i32>(), layout.count);
        assert_eq!(block_counts(&counts, layout), Some(counts));
    }
    let even = set_even(&sel("A,B,C", ""));
    assert_eq!(even.tensor_split, "1,1,1");
    let set = set_blocks(&even, "B", 10, layout);
    assert_eq!(block_counts(&parse_weights(&set.tensor_split), layout).unwrap()[1], 10);
}

// ── Devices ───────────────────────────────────────────────────────────────

#[test]
fn device_ids_are_listed_once() {
    let all = devices::parse("  A: x\n  B: y\n  A: z\n  B: y\n");
    assert_eq!(all.iter().map(|d| d.id.as_str()).collect::<Vec<_>>(), ["A", "B"]);
    assert_eq!(all[0].name, "x");
}

// ── INI ───────────────────────────────────────────────────────────────────

#[test]
fn a_written_key_reads_back_and_the_others_stay() {
    let text = "; top\n[a]\nx = 1\ny = 2\n[b]\nx = 3\n";
    let now = replace_key(text, "a", "x", "9");
    assert_eq!(now, "; top\n[a]\nx = 9\ny = 2\n[b]\nx = 3\n");
    let now = replace_key(text, "c", "k", "v");
    assert_eq!(read_section(&now, "c").get("k"), Some("v"));
    assert_eq!(read_section(&now, "b").get("x"), Some("3"));
}

#[test]
fn a_key_in_another_case_is_rewritten_in_the_spelling_given() {
    let now = replace_key("[s]\nPort = 1\nhost = h\n[t]\nPort = 2\n", "S", "port", "9");
    assert_eq!(now, "[s]\nport = 9\nhost = h\n[t]\nPort = 2\n");
    let keys = read_section(&now, "s");
    assert_eq!(keys.get("port"), Some("9"));
    assert!(!keys.contains_key("Port"));
    assert_eq!(keys.get("host"), Some("h"));
    assert_eq!(read_section(&now, "t").get("Port"), Some("2"));
}

#[test]
fn every_writer_keeps_the_line_endings() {
    let bare = "; top\n[a]\nx = 1\n\n\n[b]\ny = 2";
    let texts = |t: &str, body: &str| {
        vec![
            replace_key(t, "a", "x", "9"),
            replace_key(t, "a", "new", "9"),
            replace_key(t, "b", "y", "9"),
            replace_key(t, "c", "k", "v"),
            replace_section(t, "a", body),
            replace_section(t, "c", body),
            rename_section(t, "a", "z").unwrap(),
            delete_section(t, "a").unwrap(),
        ]
    };
    for out in texts(bare, "[a]\r\nz = 7\r\n") {
        assert!(!out.contains('\r'), "{out:?}");
    }
    for out in texts(&bare.replace('\n', "\r\n"), "[a]\nz = 7\n") {
        assert!(!out.replace("\r\n", "").contains('\n'), "{out:?}");
    }
    assert_eq!(replace_key("", "a", "x", "1"), "[a]\r\nx = 1\r\n");
}

#[test]
fn a_written_section_reads_back_and_the_others_stay() {
    let text = "[a]\nx = 1\n[b]\nx = 3\n";
    let now = replace_section(text, "a", "[a]\nz = 7\n");
    assert_eq!(read_section(&now, "a").get("z"), Some("7"));
    assert!(!read_section(&now, "a").contains_key("x"));
    assert_eq!(read_section(&now, "b").get("x"), Some("3"));
}

#[test]
fn a_deleted_section_is_gone_and_a_renamed_one_keeps_its_keys() {
    let text = "[a]\nx = 1\n[b]\nx = 3\n";
    let now = delete_section(text, "A").unwrap();
    assert_eq!(read_all(&now).len(), 1);
    assert_eq!(delete_section(text, "c"), None);
    let now = rename_section(text, "a", "c").unwrap();
    assert_eq!(read_section(&now, "c").get("x"), Some("1"));
    assert!(matches!(rename_section(text, "a", "B"), Err(RenameError::AlreadyExists)));
    assert!(matches!(rename_section(text, "z", "y"), Err(RenameError::NotFound)));
    assert!(RenameError::NotFound.message("z", "y").contains('z'));
    assert!(RenameError::AlreadyExists.message("a", "B").contains('B'));
}

#[test]
fn scalars_are_read_with_white_space_around_them() {
    assert_eq!(parse_int(" 7 "), Some(7));
    assert_eq!(parse_int("7.0"), None);
    for (s, want) in [("true", Some(true)), (" false ", Some(false)), ("True", None), ("on", None), ("", None)] {
        assert_eq!(parse_bool(s), want, "{s}");
    }
}

// ── Form ──────────────────────────────────────────────────────────────────

#[test]
fn three_states_are_three_words() {
    for state in [None, Some(true), Some(false)] {
        assert_eq!(tri_bool(&tri_state(state)), state);
    }
}

#[test]
fn a_form_gives_its_preset_back() {
    let p = Preset {
        id: "x".into(),
        model: "m.gguf".into(),
        top_k: Some(0),
        temp: Some("0.25".into()),
        n_gpu_layers: Some(0),
        ..Default::default()
    };
    assert_eq!(form_to_preset(&preset_to_form(&p)), p);
}

// ── Results ───────────────────────────────────────────────────────────────

#[test]
fn the_last_point_of_a_preset_and_test_counts() {
    let point = |preset: &str, mean: &str| Point {
        preset: preset.into(),
        test: "decode".into(),
        mean: mean.into(),
        sd: "0.0".into(),
        n: 1,
        note: String::new(),
        rank: 1,
    };
    let mut all = Vec::new();
    for p in [point("a", "1.0"), point("b", "2.0"), point("a", "3.0")] {
        put(&mut all, p);
    }
    assert_eq!(all, vec![point("a", "3.0"), point("b", "2.0")]);
    let mut seen = Seen::new();
    for (k, v) in [("c", "on"), ("a", "on"), ("b", "off"), ("a", "off")] {
        seen.insert(k.into(), v.into());
    }
    let keys: Vec<&str> = seen.pairs().iter().map(|(k, _)| k.as_str()).collect();
    assert_eq!(keys, ["a", "b", "c"]);
}

#[test]
fn mode_words_name_their_mode() {
    for m in [Mode::Live, Mode::Synthetic] {
        assert_eq!(Mode::from_str(m.as_str()), m);
    }
    assert_eq!(Mode::from_str("?"), Mode::Live);
    assert_eq!(default_plan().mode, Mode::Live);
}

// ── Digest ────────────────────────────────────────────────────────────────

#[test]
fn the_digest_is_sha_256() {
    assert_eq!(
        sha256::hex(b""),
        "e3b0c44298fc1c149afbf4c8996fb92427ae41e4649b934ca495991b7852b855"
    );
    assert_eq!(
        sha256::hex(b"abc"),
        "ba7816bf8f01cfea414140de5dae2223b00361a396177a9cb410ff61f20015ad"
    );
    assert_eq!(
        sha256::hex(b"abcdbcdecdefdefgefghfghighijhijkijkljklmklmnlmnomnopnopq"),
        "248d6a61d20638b8e5c026930c3e6039a33ce45964ff2167f6ecedd419db06c1"
    );
    assert_eq!(sha256::short(b"abc"), "ba7816bf8f01");
}

// ── HTTP ──────────────────────────────────────────────────────────────────

fn dechunked(s: &str) -> String {
    dechunk(&s.chars().collect::<Vec<char>>())
}

#[test]
fn chunks_are_put_together_by_their_bytes() {
    assert_eq!(dechunked("2\r\né\r\n+3;x=1\r\nabc\r\n0\r\n\r\n"), "éabc");
    assert_eq!(dechunked("A\r\nshort"), "short");
    assert_eq!(dechunked("3\r\nabcrest\r\n"), "abc");
    assert_eq!(dechunked("1\r\né\r\n"), "", "a chunk that ends inside a character");
    assert_eq!(dechunked("xyz\r\nabc"), "");
    assert_eq!(dechunked("ffffffffffffffffff\r\nabc"), "");
    assert_eq!(dechunked("no line"), "");
}

#[test]
fn answers_and_requests_are_plain_text() {
    assert_eq!(
        request_text(8080, "POST", "/x", "é"),
        "POST /x HTTP/1.1\r\nHost: 127.0.0.1:8080\r\nConnection: close\r\nContent-Type: application/json\r\nContent-Length: 2\r\n\r\né"
    );
    assert_eq!(
        parse_response("HTTP/1.1 OK\r\n\r\n"),
        Err("unreadable status line from llama-server".into())
    );
    assert_eq!(
        parse_response("HTTP/1.1 200"),
        Err("truncated response from llama-server".into())
    );
    assert_eq!(
        parse_response("HTTP/1.1 99999 X\r\n\r\n").unwrap_err(),
        "unreadable status line from llama-server"
    );
    let r = parse_response("HTTP/1.1 200 OK\r\nTRANSFER-Encoding: gzip, chunked\r\n\r\n1\r\na\r\n0\r\n").unwrap();
    assert_eq!(r.body, "a");
}

// ── KV cache ──────────────────────────────────────────────────────────────

#[test]
fn native_pairs_are_silent_and_off_needs_no_kernel() {
    for t in native_types() {
        assert!(types().contains(&t));
        assert_eq!(check("x", true, true, t, t, "on"), None);
    }
    for k in types() {
        for v in types() {
            let quantized = !["f32", "f16", "bf16"].contains(&v);
            assert_eq!(check("x", true, true, k, v, "off").is_some(), quantized, "{k} {v}");
        }
    }
    let w = warning(&Input {
        device: "CPU",
        server_device: " ",
        probed: &[],
        cache_type_k: "q4_1",
        cache_type_v: "iq4_nl",
        flash_attn: "on",
        draft: Some(("x", "f16")),
    });
    assert_eq!(w, "Draft KV cache: x is not a KV cache type llama.cpp accepts (f32, f16, bf16, q8_0, q5_1, q5_0, q4_1, q4_0, iq4_nl), so the model does not load.");
}

// ── Addresses ─────────────────────────────────────────────────────────────

#[test]
fn the_address_of_all_interfaces_stands_alone() {
    let mut now = String::from("localhost");
    for value in ["10.0.0.2", ALL_INTERFACES, "10.0.0.3", "localhost", ALL_INTERFACES, ALL_INTERFACES] {
        now = toggle_host(&now, value);
        let hosts = parse_hosts(&now);
        assert!(!hosts.iter().any(|h| h == ALL_INTERFACES) || hosts.len() == 1, "{now}");
    }
    assert_eq!(now, "localhost");
    let mixed = "0.0.0.0,localhost,10.0.0.1";
    assert_eq!(toggle_host(mixed, "10.0.0.1"), "localhost");
    assert_eq!(toggle_host(mixed, "10.0.0.2"), "localhost,10.0.0.1,10.0.0.2");
    assert_eq!(toggle_host(mixed, ALL_INTERFACES), "localhost,10.0.0.1");
    assert_eq!(toggle_host("0.0.0.0,10.0.0.1", "10.0.0.1"), ALL_INTERFACES);
    assert!(parse_hosts(&toggle_host("a", "b")).contains(&"b".to_string()));
}

#[test]
fn every_bound_address_has_a_checked_row() {
    let ifaces = [BindOption { label: "x".into(), value: "10.0.0.2".into() }];
    let current = "10.0.0.2,LOCALHOST,10.9.9.9";
    let rows = build_rows(&ifaces, current);
    for h in parse_hosts(current) {
        assert!(rows.iter().any(|r| r.checked && r.value.eq_ignore_ascii_case(&h)), "{h}");
    }
}

#[test]
fn interfaces_are_listed_by_name_and_address() {
    let iface = |name: &str, ip: [u8; 4], mask: [u8; 4]| Iface {
        name: name.into(),
        v4: Some((u32::from_be_bytes(ip), u32::from_be_bytes(mask))),
    };
    let rows = interface_rows(&vec![
        iface("wlan", [192, 168, 1, 10], [255, 255, 255, 0]),
        iface("eth", [10, 0, 0, 9], [255, 0, 0, 0]),
        iface("eth", [10, 0, 0, 10], [255, 255, 0, 0]),
        iface("lo", [127, 0, 0, 1], [255, 0, 0, 0]),
        iface("auto", [169, 254, 3, 4], [255, 255, 0, 0]),
        Iface { name: "six".into(), v4: None },
    ]);
    assert_eq!(
        rows.iter().map(|r| r.label.as_str()).collect::<Vec<_>>(),
        [
            "10.0.0.10 (eth, 10.0.0.0/16)",
            "10.0.0.9 (eth, 10.0.0.0/8)",
            "192.168.1.10 (wlan, 192.168.1.0/24)",
        ]
    );
    assert_eq!(rows[2].value, "192.168.1.10");
    for mask in [0u32, 1, 0xffff_ff00, u32::MAX] {
        assert_eq!(netmask_to_prefix(mask), mask.count_ones());
    }
    assert_eq!(network_of(0x0a01_0203, 0xffff_0000), 0x0a01_0000);
    assert_eq!(dotted_text(0xff00_0a01), "255.0.10.1");
}

// ── Model files ───────────────────────────────────────────────────────────

#[test]
fn a_value_that_is_there_stays_selected() {
    let scanned = || vec![FileOption { label: "a".into(), path: r"C:\a.gguf".into() }];
    for current in ["C:/A.gguf", r"D:\x.gguf", " y "] {
        for c in [Category::Model, Category::Mmproj] {
            let (_, values, at) = build_options(c, scanned(), current);
            assert_eq!(
                values[at as usize].to_lowercase().replace('\\', "/"),
                current.trim().to_lowercase().replace('\\', "/")
            );
        }
        let (_, values, kinds, at) = build_draft_options(scanned(), Vec::new(), current, " ");
        assert_eq!(
            values[at as usize].to_lowercase().replace('\\', "/"),
            current.trim().to_lowercase().replace('\\', "/")
        );
        assert_eq!(kinds.len(), values.len());
    }
}

#[test]
fn the_draft_that_shares_most_words_with_the_model_is_named() {
    let f = |label: &str| FileOption { label: label.into(), path: label.into() };
    let mtp = vec![f("qwen3-4b-mtp.gguf"), f("qwen3-30b-a3b-mtp.gguf")];
    let dflash = vec![f("qwen3-30b-a3b-dflash.gguf")];
    let ext = external_drafters(&mtp, &dflash, r"C:\m\Qwen3-30B-A3B-Q4_K_M.gguf");
    assert_eq!(ext.best, Some(("qwen3-30b-a3b-mtp.gguf".to_string(), "MTP")));
    assert_eq!((ext.mtp_count, ext.dflash_count), (2, 1));
    let none = external_drafters(&mtp, &dflash, "glm.gguf");
    assert_eq!(none.best, None);
    assert_eq!(ExternalDraft::default().mtp_count, 0);
}

// ── The rest ──────────────────────────────────────────────────────────────

#[test]
fn remote_adapters_are_no_hardware() {
    let adapter = |desc: &str, date: &str| Adapter {
        desc: desc.into(),
        version: "32.0".into(),
        date: date.into(),
    };
    let rows = stamp(
        100_000,
        Some(60),
        &vec![adapter("RTX", "1-2-2026"), adapter("Microsoft Remote Display Adapter", ""), adapter("R9700", "")],
    );
    assert_eq!(
        rows,
        vec![
            ("booted".to_string(), "1970-01-02 03:45:40 UTC (up 1 m)".to_string()),
            ("display driver (RTX)".to_string(), "32.0, dated 1-2-2026".to_string()),
            ("display driver (R9700)".to_string(), "32.0".to_string()),
        ]
    );
}

#[test]
fn flags_that_are_not_given_change_nothing() {
    let mut cfg = ServerConfig { port: Some(1), ..Default::default() };
    let before = cfg.clone();
    ServerSet::default().apply(&mut cfg);
    assert_eq!(cfg, before);
    assert_eq!(ServerConfig::default().port_or_default(), 8080);
    assert_eq!(cfg.port_or_default(), 1);
}
