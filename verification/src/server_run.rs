//! Running the server as a process: which steps to take, how long to wait, and with
//! which arguments. The steps themselves are the caller's.
use vstd::prelude::*;
use vstd::string::*;
use crate::bench::Mode;
use crate::server_cfg::ServerConfig;
use crate::text::{dec, dec_int, int_str, push_dec, strs};

verus! {

// ── Waiting ──────────────────────────────────────────────────────────────

/// How long to wait for the server to be gone, in milliseconds.
pub const GONE_CAP_MS: u64 = 60000;

/// How long to wait for the server to answer, in milliseconds.
pub const READY_CAP_MS: u64 = 120000;

/// What to do while waiting.
#[derive(Clone, Copy, PartialEq, Eq, Structural, Debug)]
pub enum Wait {
    Done,
    GiveUp,
    Again,
}

/// Whether to go on waiting for something, so long after it began.
pub open spec fn next_wait(done: bool, waited_ms: u64, cap_ms: u64) -> Wait {
    if done {
        Wait::Done
    } else if waited_ms >= cap_ms {
        Wait::GiveUp
    } else {
        Wait::Again
    }
}

/// What is done is done however late. Until then a wait goes on for as long as the cap
/// says, and no longer.
pub proof fn law_waits_end(waited_ms: u64, cap_ms: u64, done: bool)
    ensures
        next_wait(true, waited_ms, cap_ms) == Wait::Done,
        next_wait(done, waited_ms, cap_ms) == Wait::Done ==> done,
        next_wait(false, waited_ms, cap_ms) == Wait::Again <==> waited_ms < cap_ms,
        next_wait(false, waited_ms, cap_ms) == Wait::GiveUp <==> waited_ms >= cap_ms,
{
}

/// Whether to go on waiting for something, so long after it began.
pub fn wait_step(done: bool, waited_ms: u64, cap_ms: u64) -> (r: Wait)
    ensures
        r == next_wait(done, waited_ms, cap_ms),
{
    if done {
        Wait::Done
    } else if waited_ms >= cap_ms {
        Wait::GiveUp
    } else {
        Wait::Again
    }
}

/// What is said of a server that did not go.
pub fn not_gone_text() -> (r: String)
    ensures
        r@ == "llama-server did not stop"@,
{
    "llama-server did not stop".to_owned()
}

/// What is said of a server that did not answer in so many milliseconds.
pub fn not_ready_text(port: u16, cap_ms: u64) -> (r: String)
    ensures
        r@ == "llama-server did not answer on port "@ + dec(port as nat) + " within "@ + dec(
            (cap_ms / 1000) as nat,
        ) + " s"@,
{
    let mut out: String = "llama-server did not answer on port ".to_owned();
    push_dec(&mut out, port as u64);
    out.append(" within ");
    push_dec(&mut out, cap_ms / 1000);
    out.append(" s");
    out
}

// ── Steps ────────────────────────────────────────────────────────────────

/// A step of bringing the server up or down.
#[derive(Clone, Copy, PartialEq, Eq, Structural, Debug)]
pub enum ServerStep {
    Stop,
    AwaitGone,
    Start,
    AwaitReady,
}

/// The steps into the state that an engine measures in.
pub open spec fn steps_before(mode: Mode, running: bool) -> Seq<ServerStep> {
    match mode {
        Mode::Live => seq![
            ServerStep::Stop,
            ServerStep::AwaitGone,
            ServerStep::Start,
            ServerStep::AwaitReady,
        ],
        Mode::Synthetic => if running {
            seq![ServerStep::Stop, ServerStep::AwaitGone]
        } else {
            Seq::empty()
        },
    }
}

/// The steps back to the state that a sweep found.
pub open spec fn steps_back(was_running: bool, running: bool) -> Seq<ServerStep> {
    if was_running {
        seq![ServerStep::Stop, ServerStep::AwaitGone, ServerStep::Start]
    } else if running {
        seq![ServerStep::Stop, ServerStep::AwaitGone]
    } else {
        Seq::empty()
    }
}

/// Where a server is on its way up or down.
pub enum Phase {
    Gone,
    Going,
    Coming,
    Ready,
}

/// Where steps take a server that each of them suits: it is started only where it is
/// gone, and awaited only where it is on its way. None where a step does not suit it.
pub open spec fn phase_after(p: Phase, steps: Seq<ServerStep>) -> Option<Phase>
    decreases steps.len(),
{
    if steps.len() == 0 {
        Some(p)
    } else {
        match (phase_after(p, steps.drop_last()), steps.last()) {
            (Some(_), ServerStep::Stop) => Some(Phase::Going),
            (Some(Phase::Going), ServerStep::AwaitGone) => Some(Phase::Gone),
            (Some(Phase::Gone), ServerStep::Start) => Some(Phase::Coming),
            (Some(Phase::Coming), ServerStep::AwaitReady) => Some(Phase::Ready),
            _ => None,
        }
    }
}

/// The steps before a measurement leave a server that was started for it and answers for
/// the live engine, whether or not one ran before, and none for the synthetic one. Where
/// there is nothing to change, there is nothing to do.
pub proof fn law_steps_prepare(running: bool)
    ensures
        ({
            let p = if running {
                Phase::Ready
            } else {
                Phase::Gone
            };
            &&& phase_after(p, steps_before(Mode::Live, running)) == Some(Phase::Ready)
            &&& steps_before(Mode::Live, running).contains(ServerStep::Start)
            &&& phase_after(p, steps_before(Mode::Synthetic, running)) == Some(Phase::Gone)
            &&& !running ==> steps_before(Mode::Synthetic, running).len() == 0
        }),
{
    let live = steps_before(Mode::Live, running);
    let s = steps_before(Mode::Synthetic, running);
    assert(live[2] == ServerStep::Start);
    assert(live.drop_last() =~= live.take(3));
    assert(live.take(3).drop_last() =~= live.take(2));
    assert(live.take(2).drop_last() =~= live.take(1));
    assert(live.take(1).drop_last() =~= live.take(0));
    reveal_with_fuel(phase_after, 6);
    if running {
        assert(s.drop_last() =~= s.take(1));
        assert(s.take(1).drop_last() =~= s.take(0));
    }
}

/// The steps after a sweep bring a server up again where one was found, and leave none
/// where there was none; without a server to begin or end with there is nothing to do.
pub proof fn law_steps_restore(was_running: bool, running: bool)
    ensures
        ({
            let p = if running {
                Phase::Ready
            } else {
                Phase::Gone
            };
            &&& was_running ==> phase_after(p, steps_back(was_running, running)) == Some(Phase::Coming)
            &&& !was_running ==> phase_after(p, steps_back(was_running, running)) == Some(Phase::Gone)
            &&& !was_running && !running ==> steps_back(was_running, running).len() == 0
        }),
{
    let s = steps_back(was_running, running);
    reveal_with_fuel(phase_after, 5);
    if was_running {
        assert(s.drop_last() =~= s.take(2));
        assert(s.take(2).drop_last() =~= s.take(1));
        assert(s.take(1).drop_last() =~= s.take(0));
    } else if running {
        assert(s.drop_last() =~= s.take(1));
        assert(s.take(1).drop_last() =~= s.take(0));
    }
}

/// The steps into the state that an engine measures in: freshly started for the live
/// one, gone for the synthetic one.
pub fn prepare_steps(mode: Mode, running: bool) -> (r: Vec<ServerStep>)
    ensures
        r@ == steps_before(mode, running),
{
    match mode {
        Mode::Live => vec![
            ServerStep::Stop,
            ServerStep::AwaitGone,
            ServerStep::Start,
            ServerStep::AwaitReady,
        ],
        Mode::Synthetic => if running {
            vec![ServerStep::Stop, ServerStep::AwaitGone]
        } else {
            Vec::new()
        },
    }
}

/// The steps back to the state that a sweep found: started anew where the server was
/// running, gone where it was not.
pub fn restore_steps(was_running: bool, running: bool) -> (r: Vec<ServerStep>)
    ensures
        r@ == steps_back(was_running, running),
{
    if was_running {
        vec![ServerStep::Stop, ServerStep::AwaitGone, ServerStep::Start]
    } else if running {
        vec![ServerStep::Stop, ServerStep::AwaitGone]
    } else {
        Vec::new()
    }
}

/// What is said of a server that could not be started, for a run or anew after one.
pub fn start_problem(again: bool, fault: &str) -> (r: String)
    ensures
        r@ == (if again {
            "cannot restart llama-server: "@
        } else {
            "cannot start llama-server: "@
        }) + fault@,
{
    let mut out: String = if again {
        "cannot restart llama-server: ".to_owned()
    } else {
        "cannot start llama-server: ".to_owned()
    };
    out.append(fault);
    out
}

// ── Arguments ────────────────────────────────────────────────────────────

/// An argument with a text, where there is one.
pub open spec fn text_argument(name: Seq<char>, v: Option<String>) -> Seq<Seq<char>> {
    match v {
        Some(s) => seq![name, s@],
        None => Seq::empty(),
    }
}

/// An argument with a number, where there is one.
pub open spec fn number_argument(name: Seq<char>, v: Option<i32>) -> Seq<Seq<char>> {
    match v {
        Some(n) => seq![name, dec_int(n as int)],
        None => Seq::empty(),
    }
}

/// An argument alone, where it is wanted.
pub open spec fn flag_argument(name: Seq<char>, on: bool) -> Seq<Seq<char>> {
    if on {
        seq![name]
    } else {
        Seq::empty()
    }
}

/// The arguments of the server: the presets and the port, then what the settings name.
pub open spec fn server_argv(c: ServerConfig, presets: Seq<char>) -> Seq<Seq<char>> {
    let port: i32 = match c.port {
        Some(p) => p,
        None => 8080,
    };
    seq!["--models-preset"@, presets, "--port"@, dec_int(port as int)] + text_argument(
        "--host"@,
        c.hostname,
    ) + text_argument("--models-dir"@, c.models_dir) + text_argument("--device"@, c.device)
        + text_argument("--split-mode"@, c.split_mode) + text_argument("--tensor-split"@, c.tensor_split)
        + text_argument("--override-tensor"@, c.override_tensor) + number_argument(
        "--threads"@,
        c.threads,
    ) + number_argument("--threads-batch"@, c.threads_batch) + number_argument(
        "--cache-reuse"@,
        c.cache_reuse,
    ) + number_argument("--models-max"@, c.models_max) + number_argument(
        "--log-verbosity"@,
        c.log_verbosity,
    ) + flag_argument("--mlock"@, c.mlock == Some(true)) + flag_argument(
        "--no-mmap"@,
        c.no_mmap == Some(true),
    ) + flag_argument("--webui-mcp-proxy"@, c.webui_mcp_proxy != Some(false)) + flag_argument(
        "--no-prefill-assistant"@,
        c.prefill_assistant == Some(false),
    )
}

fn push_text(a: &mut Vec<String>, name: &str, v: &Option<String>)
    ensures
        strs(final(a)@) == strs(old(a)@) + text_argument(name@, *v),
{
    if let Some(s) = v {
        a.push(name.to_owned());
        a.push(s.clone());
    }
    assert(strs(a@) =~= strs(old(a)@) + text_argument(name@, *v));
}

fn push_number(a: &mut Vec<String>, name: &str, v: Option<i32>)
    ensures
        strs(final(a)@) == strs(old(a)@) + number_argument(name@, v),
{
    if let Some(n) = v {
        a.push(name.to_owned());
        a.push(int_str(n as i64));
    }
    assert(strs(a@) =~= strs(old(a)@) + number_argument(name@, v));
}

fn push_flag(a: &mut Vec<String>, name: &str, on: bool)
    ensures
        strs(final(a)@) == strs(old(a)@) + flag_argument(name@, on),
{
    if on {
        a.push(name.to_owned());
    }
    assert(strs(a@) =~= strs(old(a)@) + flag_argument(name@, on));
}

/// The arguments of the server.
pub fn server_arguments(c: &ServerConfig, presets: &str) -> (r: Vec<String>)
    ensures
        strs(r@) == server_argv(*c, presets@),
{
    let mut a: Vec<String> = Vec::new();
    a.push("--models-preset".to_owned());
    a.push(presets.to_owned());
    a.push("--port".to_owned());
    let port: i32 = c.port_or_default();
    a.push(int_str(port as i64));
    assert(strs(a@) =~= seq!["--models-preset"@, presets@, "--port"@, dec_int(port as int)]);
    push_text(&mut a, "--host", &c.hostname);
    push_text(&mut a, "--models-dir", &c.models_dir);
    push_text(&mut a, "--device", &c.device);
    push_text(&mut a, "--split-mode", &c.split_mode);
    push_text(&mut a, "--tensor-split", &c.tensor_split);
    push_text(&mut a, "--override-tensor", &c.override_tensor);
    push_number(&mut a, "--threads", c.threads);
    push_number(&mut a, "--threads-batch", c.threads_batch);
    push_number(&mut a, "--cache-reuse", c.cache_reuse);
    push_number(&mut a, "--models-max", c.models_max);
    push_number(&mut a, "--log-verbosity", c.log_verbosity);
    push_flag(&mut a, "--mlock", matches!(c.mlock, Some(true)));
    push_flag(&mut a, "--no-mmap", matches!(c.no_mmap, Some(true)));
    push_flag(&mut a, "--webui-mcp-proxy", !matches!(c.webui_mcp_proxy, Some(false)));
    push_flag(&mut a, "--no-prefill-assistant", matches!(c.prefill_assistant, Some(false)));
    a
}

} // verus!
