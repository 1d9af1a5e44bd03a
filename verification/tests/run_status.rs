use llama_cpp_config::log_tail::{edit_log_size, SizeEdit};
use llama_cpp_config::run_status::{keeps_waiting, saved_text, RunStatus, StartOutcome};

#[test]
fn a_start_runs_once_and_reports_where_the_server_listens() {
    let mut s = RunStatus::default();
    assert!(s.begin_start());
    assert_eq!(s.text, "Starting llama-server…");
    assert!(!s.begin_start(), "a second click does nothing");
    assert!(!s.begin_stop());
    s.start_landed(&StartOutcome::Launched("http://localhost:8080".into()));
    assert!(s.running && !s.starting && !s.server_error);
    assert_eq!(s.launched_url, "http://localhost:8080");
    assert_eq!(s.text, "llama-server started.");
}

#[test]
fn a_failed_start_is_an_error_and_an_idle_one_is_not() {
    let mut s = RunStatus::default();
    assert!(s.begin_start());
    s.start_landed(&StartOutcome::Failed("no such file".into()));
    assert!(!s.running && s.server_error && s.text_error);
    assert_eq!(s.text, "Failed to start: no such file");

    assert!(s.begin_start());
    s.start_landed(&StartOutcome::Already);
    assert!(s.running && !s.server_error && !s.text_error);
    assert_eq!(s.launched_url, "", "nothing of ours was started");
    assert_eq!(s.text, "llama-server is already running.");
}

#[test]
fn a_stop_waits_and_reports_what_is_left() {
    let mut s = RunStatus::default();
    s.start_landed(&StartOutcome::Launched("u".into()));
    assert!(s.begin_stop());
    assert_eq!(s.text, "Stopping llama-server…");
    s.stop_landed(true);
    assert!(s.running && s.server_error);
    assert_eq!(s.launched_url, "u");
    assert_eq!(s.text, "Stop timed out — llama-server is still running.");

    assert!(s.begin_stop());
    s.stop_landed(false);
    assert!(!s.running && !s.server_error);
    assert_eq!(s.launched_url, "");
    assert_eq!(s.text, "llama-server stopped.");

    assert!(keeps_waiting(true, 14_999));
    assert!(!keeps_waiting(true, 15_000));
    assert!(!keeps_waiting(false, 0));
}

#[test]
fn what_was_seen_before_a_transition_is_dropped() {
    let mut s = RunStatus::default();
    let seen_in = s.generation;
    assert!(s.begin_start());
    s.start_landed(&StartOutcome::Launched("u".into()));
    let before = s.clone();
    s.apply_sample(seen_in, false, true, "x.log");
    assert_eq!(s, before);
}

#[test]
fn a_server_that_dies_by_itself_is_reported() {
    let mut s = RunStatus::default();
    s.start_landed(&StartOutcome::Launched("u".into()));
    let now = s.generation;
    s.apply_sample(now, false, false, r"C:\logs\llama-server.log");
    assert!(!s.running && s.server_error && s.text_error);
    assert_eq!(s.launched_url, "");
    assert_eq!(
        s.text,
        r"llama-server is no longer running — see C:\logs\llama-server.log"
    );
    // Looking again changes nothing; a reload clears the mark.
    s.apply_sample(now, false, false, "x");
    assert!(s.server_error);
    s.apply_sample(now, false, true, "x");
    assert!(!s.server_error);
}

#[test]
fn saving_says_when_a_restart_is_due() {
    assert_eq!(saved_text("server.ini", false), "Saved server.ini");
    assert_eq!(
        saved_text("server.ini", true),
        "Saved server.ini — restart llama-server to apply."
    );
}

#[test]
fn the_size_from_which_a_log_is_filed_away() {
    assert_eq!(edit_log_size(" 0512 ", 512), SizeEdit::Keep);
    assert_eq!(
        edit_log_size("0", 512),
        SizeEdit::Store(0, "Every non-empty log will be filed away.".into())
    );
    assert_eq!(
        edit_log_size("64", 512),
        SizeEdit::Store(64, "Logs larger than 64 KB will be filed away.".into())
    );
    assert_eq!(edit_log_size("  ", 512), SizeEdit::Restore(None));
    assert_eq!(
        edit_log_size("99999999999", 512),
        SizeEdit::Restore(Some("'99999999999' is not a size in KB.".into()))
    );
    assert_eq!(
        edit_log_size("-1", 512),
        SizeEdit::Restore(Some("'-1' is not a size in KB.".into()))
    );
}
