use llama_cpp_config::bench::Mode;
use llama_cpp_config::server_cfg::ServerConfig;
use llama_cpp_config::server_run::{
    not_gone_text, not_ready_text, prepare_steps, restore_steps, server_arguments, start_problem,
    wait_step, ServerStep, Wait, GONE_CAP_MS, READY_CAP_MS,
};

/// What has come to be ends the wait, however late it is.
#[test]
fn waiting_ends_when_it_is_done_or_at_the_cap() {
    assert_eq!(wait_step(true, 0, GONE_CAP_MS), Wait::Done);
    assert_eq!(wait_step(true, 60_000, GONE_CAP_MS), Wait::Done);
    assert_eq!(wait_step(false, 59_999, GONE_CAP_MS), Wait::Again);
    assert_eq!(wait_step(false, 60_000, GONE_CAP_MS), Wait::GiveUp);
    assert_eq!(wait_step(false, 119_999, READY_CAP_MS), Wait::Again);
    assert_eq!(wait_step(false, 120_001, READY_CAP_MS), Wait::GiveUp);
}

#[test]
fn a_wait_in_vain_says_what_it_was_for() {
    assert_eq!(not_gone_text(), "llama-server did not stop");
    assert_eq!(
        not_ready_text(8080, READY_CAP_MS),
        "llama-server did not answer on port 8080 within 120 s"
    );
    assert_eq!(start_problem(false, "no exe"), "cannot start llama-server: no exe");
    assert_eq!(start_problem(true, "no exe"), "cannot restart llama-server: no exe");
}

#[test]
fn the_steps_depend_on_the_engine_and_on_what_runs() {
    let fresh = [
        ServerStep::Stop,
        ServerStep::AwaitGone,
        ServerStep::Start,
        ServerStep::AwaitReady,
    ];
    assert_eq!(prepare_steps(Mode::Live, true), fresh);
    assert_eq!(prepare_steps(Mode::Live, false), fresh);
    assert_eq!(prepare_steps(Mode::Synthetic, true), fresh[..2]);
    assert_eq!(prepare_steps(Mode::Synthetic, false), fresh[..0]);
    assert_eq!(restore_steps(true, true), fresh[..3]);
    assert_eq!(restore_steps(true, false), fresh[..3]);
    assert_eq!(restore_steps(false, true), fresh[..2]);
    assert_eq!(restore_steps(false, false), fresh[..0]);
}

#[test]
fn the_server_is_told_what_the_settings_name() {
    let c = ServerConfig {
        mlock: Some(false),
        webui_mcp_proxy: Some(false),
        ..ServerConfig::default()
    };
    assert_eq!(
        server_arguments(&c, "presets.ini"),
        ["--models-preset", "presets.ini", "--port", "8080"]
    );
    let c = ServerConfig {
        port: Some(9001),
        hostname: Some("0.0.0.0".into()),
        threads: Some(12),
        no_mmap: Some(true),
        prefill_assistant: Some(false),
        ..ServerConfig::default()
    };
    assert_eq!(
        server_arguments(&c, "p"),
        [
            "--models-preset",
            "p",
            "--port",
            "9001",
            "--host",
            "0.0.0.0",
            "--threads",
            "12",
            "--no-mmap",
            "--webui-mcp-proxy",
            "--no-prefill-assistant",
        ]
    );
}
