//! What the window knows of the server: whether it runs, whether it is on its way,
//! and what the status line says.
//!
//! Starting, stopping and looking take time and end out of order. Every start and
//! stop, when it begins and when it ends, begins a new generation, and what was
//! seen in an older one is dropped ([`RunStatus::apply_sample`]).
use vstd::prelude::*;
use vstd::string::*;

verus! {

/// What is known of the server.
#[derive(Debug, Clone, PartialEq, Eq)]
pub struct RunStatus {
    pub starting: bool,
    pub stopping: bool,
    pub running: bool,
    /// Where the running server was started to listen; empty where it was started
    /// elsewhere.
    pub launched_url: String,
    /// Whether the last thing that the server did went wrong.
    pub server_error: bool,
    /// The status line.
    pub text: String,
    pub text_error: bool,
    pub generation: u64,
}

/// How a start ended.
#[derive(Debug, Clone, PartialEq, Eq)]
pub enum StartOutcome {
    /// The server was started and listens there.
    Launched(String),
    /// It ran already.
    Already,
    Failed(String),
}

impl Default for RunStatus {
    fn default() -> (r: Self)
        ensures
            !r.starting,
            !r.stopping,
            !r.running,
            r.launched_url@.len() == 0,
            !r.server_error,
            r.text@.len() == 0,
            !r.text_error,
            r.generation == 0,
    {
        RunStatus {
            starting: false,
            stopping: false,
            running: false,
            launched_url: String::new(),
            server_error: false,
            text: String::new(),
            text_error: false,
            generation: 0,
        }
    }
}

/// The generation behind another.
pub open spec fn next_generation(g: u64) -> u64 {
    if g == u64::MAX {
        0
    } else {
        (g + 1) as u64
    }
}

/// How a start begins: not while a start or a stop is under way.
pub open spec fn start_begins(a: RunStatus, b: RunStatus, r: bool) -> bool {
    &&& r == !a.busy()
    &&& !r ==> b == a
    &&& r ==> b.text@ == "Starting llama-server…"@ && b == (RunStatus {
        starting: true,
        text: b.text,
        text_error: false,
        generation: next_generation(a.generation),
        ..a
    })
}

/// How a start ends.
pub open spec fn start_lands(a: RunStatus, outcome: StartOutcome, b: RunStatus) -> bool {
    &&& !b.starting
    &&& b.stopping == a.stopping
    &&& b.generation == next_generation(a.generation)
    &&& b.running == !(outcome is Failed)
    &&& b.server_error == outcome is Failed
    &&& b.text_error == outcome is Failed
    &&& match outcome {
        StartOutcome::Launched(url) => b.launched_url@ == url@ && b.text@ == "llama-server started."@,
        StartOutcome::Already => b.launched_url == a.launched_url && b.text@
            == "llama-server is already running."@,
        StartOutcome::Failed(e) => b.launched_url == a.launched_url && b.text@ == "Failed to start: "@
            + e@,
    }
}

/// How a stop begins: not while a start or a stop is under way.
pub open spec fn stop_begins(a: RunStatus, b: RunStatus, r: bool) -> bool {
    &&& r == !a.busy()
    &&& !r ==> b == a
    &&& r ==> b.text@ == "Stopping llama-server…"@ && b == (RunStatus {
        stopping: true,
        text: b.text,
        text_error: false,
        generation: next_generation(a.generation),
        ..a
    })
}

/// How a stop ends.
pub open spec fn stop_lands(a: RunStatus, running: bool, b: RunStatus) -> bool {
    &&& !b.stopping
    &&& b.starting == a.starting
    &&& b.generation == next_generation(a.generation)
    &&& b.running == running
    &&& b.server_error == running
    &&& b.text_error == running
    &&& b.launched_url@ == if running {
        a.launched_url@
    } else {
        Seq::<char>::empty()
    }
    &&& b.text@ == if running {
        "Stop timed out — llama-server is still running."@
    } else {
        "llama-server stopped."@
    }
}

/// What a look at the server changes.
pub open spec fn sample_lands(
    a: RunStatus,
    generation: u64,
    running: bool,
    clear_error: bool,
    log_path: Seq<char>,
    b: RunStatus,
) -> bool {
    &&& generation != a.generation ==> b == a
    &&& generation == a.generation ==> {
        let died = a.running && !running && !a.busy();
        &&& b.running == running
        &&& b.starting == a.starting
        &&& b.stopping == a.stopping
        &&& b.generation == generation
        &&& b.launched_url@ == if running {
            a.launched_url@
        } else {
            Seq::<char>::empty()
        }
        &&& b.server_error == (died || (!clear_error && a.server_error))
        &&& b.text@ == if died {
            "llama-server is no longer running — see "@ + log_path
        } else {
            a.text@
        }
        &&& b.text_error == (died || a.text_error)
    }
}

impl RunStatus {
    /// Whether a start or a stop is under way.
    pub open spec fn busy(self) -> bool {
        self.starting || self.stopping
    }

    fn bump(&mut self)
        ensures
            *final(self) == (RunStatus {
                generation: next_generation(old(self).generation),
                ..*old(self)
            }),
    {
        if self.generation == u64::MAX {
            self.generation = 0;
        } else {
            self.generation = self.generation + 1;
        }
    }

    /// Begins a start, unless a start or a stop is under way.
    pub fn begin_start(&mut self) -> (r: bool)
        ensures
            start_begins(*old(self), *final(self), r),
    {
        if self.starting || self.stopping {
            return false;
        }
        self.starting = true;
        self.text = "Starting llama-server…".to_owned();
        self.text_error = false;
        self.bump();
        true
    }

    /// Takes in how a start ended. Only a start of ours says where the server
    /// listens.
    pub fn start_landed(&mut self, outcome: &StartOutcome)
        ensures
            start_lands(*old(self), *outcome, *final(self)),
    {
        self.bump();
        self.starting = false;
        match outcome {
            StartOutcome::Launched(url) => {
                self.running = true;
                self.launched_url = url.clone();
                self.server_error = false;
                self.text = "llama-server started.".to_owned();
                self.text_error = false;
            },
            StartOutcome::Already => {
                self.running = true;
                self.server_error = false;
                self.text = "llama-server is already running.".to_owned();
                self.text_error = false;
            },
            StartOutcome::Failed(e) => {
                self.running = false;
                self.server_error = true;
                let mut t: String = "Failed to start: ".to_owned();
                t.append(e.as_str());
                self.text = t;
                self.text_error = true;
            },
        }
    }

    /// Begins a stop, unless a start or a stop is under way.
    pub fn begin_stop(&mut self) -> (r: bool)
        ensures
            stop_begins(*old(self), *final(self), r),
    {
        if self.starting || self.stopping {
            return false;
        }
        self.stopping = true;
        self.text = "Stopping llama-server…".to_owned();
        self.text_error = false;
        self.bump();
        true
    }

    /// Takes in how a stop ended: whether the server still runs.
    pub fn stop_landed(&mut self, running: bool)
        ensures
            stop_lands(*old(self), running, *final(self)),
    {
        self.bump();
        self.stopping = false;
        self.running = running;
        if !running {
            self.launched_url = String::new();
        }
        if running {
            self.server_error = true;
            self.text = "Stop timed out — llama-server is still running.".to_owned();
            self.text_error = true;
        } else {
            self.server_error = false;
            self.text = "llama-server stopped.".to_owned();
            self.text_error = false;
        }
    }

    /// Takes in whether the server was seen to run, in a generation. What was seen
    /// in an older one says nothing any more. A server that was running and is
    /// not, with nobody stopping it, is reported.
    pub fn apply_sample(&mut self, generation: u64, running: bool, clear_error: bool, log_path: &str)
        ensures
            sample_lands(*old(self), generation, running, clear_error, log_path@, *final(self)),
    {
        if generation != self.generation {
            return;
        }
        let was_running: bool = self.running;
        self.running = running;
        if !running {
            self.launched_url = String::new();
        }
        if clear_error {
            self.server_error = false;
        }
        if was_running && !running && !self.starting && !self.stopping {
            self.server_error = true;
            let mut t: String = "llama-server is no longer running — see ".to_owned();
            t.append(log_path);
            self.text = t;
            self.text_error = true;
        }
    }
}

/// A start or a stop keeps every other from beginning until it ends, and one that is
/// refused changes nothing. Where neither is under way, both may begin.
pub proof fn law_one_at_a_time(a: RunStatus, b: RunStatus, c: RunStatus, r: bool, again: bool)
    requires
        start_begins(a, b, r) || stop_begins(a, b, r),
        start_begins(b, c, again) || stop_begins(b, c, again),
    ensures
        r <==> !a.starting && !a.stopping,
        !again,
        c == b,
        b.starting || b.stopping,
        b.running == a.running,
        b.launched_url == a.launched_url,
        b.server_error == a.server_error,
{
}

/// A start is under way once it began, a stop once that began, and neither is the other.
pub proof fn law_under_way(a: RunStatus, b: RunStatus)
    ensures
        start_begins(a, b, true) ==> b.starting && !b.stopping && !b.text_error && b.text@
            == "Starting llama-server…"@,
        stop_begins(a, b, true) ==> b.stopping && !b.starting && !b.text_error && b.text@
            == "Stopping llama-server…"@,
{
}

/// Whatever was seen before a start or a stop began or ended changes nothing after it.
pub proof fn law_old_looks_say_nothing(
    a: RunStatus,
    b: RunStatus,
    c: RunStatus,
    outcome: StartOutcome,
    stopped: bool,
    running: bool,
    clear_error: bool,
    log_path: Seq<char>,
)
    requires
        start_begins(a, b, true) || stop_begins(a, b, true) || start_lands(a, outcome, b) || stop_lands(
            a,
            stopped,
            b,
        ),
        sample_lands(b, a.generation, running, clear_error, log_path, c),
    ensures
        c == b,
{
}

/// A start that went through leaves a server that runs at its address, with nothing under
/// way; one that failed leaves none running and says why.
pub proof fn law_start_ends(a: RunStatus, b: RunStatus, c: RunStatus, outcome: StartOutcome)
    requires
        start_begins(a, b, true),
        start_lands(b, outcome, c),
    ensures
        !c.starting && !c.stopping,
        outcome matches StartOutcome::Launched(url) ==> c.running && !c.server_error && !c.text_error
            && c.launched_url@ == url@ && c.text@ == "llama-server started."@,
        outcome is Already ==> c.running && !c.server_error && !c.text_error && c.launched_url@
            == a.launched_url@ && c.text@ == "llama-server is already running."@,
        outcome matches StartOutcome::Failed(e) ==> !c.running && c.server_error && c.text_error
            && c.launched_url@ == a.launched_url@ && c.text@ == "Failed to start: "@ + e@,
{
}

/// A stop leaves no server running and no address, with nothing under way; where the
/// server is still there, its address stays, and that it is there is an error.
pub proof fn law_stop_ends(a: RunStatus, b: RunStatus, c: RunStatus, running: bool)
    requires
        stop_begins(a, b, true),
        stop_lands(b, running, c),
    ensures
        !c.starting && !c.stopping,
        !running ==> !c.running && !c.server_error && !c.text_error && c.launched_url@.len() == 0
            && c.text@ == "llama-server stopped."@,
        running ==> c.running && c.server_error && c.text_error && c.launched_url@ == a.launched_url@
            && c.text@ == "Stop timed out — llama-server is still running."@,
{
}

/// A server that ran and is gone, with nobody starting or stopping it, is reported with
/// the place of its log; any other look leaves the status line alone. A server that is
/// not there has no address.
pub proof fn law_death_is_reported(
    a: RunStatus,
    b: RunStatus,
    running: bool,
    clear_error: bool,
    log_path: Seq<char>,
)
    requires
        sample_lands(a, a.generation, running, clear_error, log_path, b),
    ensures
        b.running == running,
        b.generation == a.generation,
        b.starting == a.starting && b.stopping == a.stopping,
        a.running && !running && !a.starting && !a.stopping ==> b.server_error && b.text_error && b.text@
            == "llama-server is no longer running — see "@ + log_path,
        running || !a.running || a.starting || a.stopping ==> b.text@ == a.text@ && b.text_error
            == a.text_error,
        running && clear_error ==> !b.server_error,
        running && !clear_error ==> b.server_error == a.server_error,
        !a.running && clear_error ==> !b.server_error,
        running ==> b.launched_url@ == a.launched_url@,
        !running ==> b.launched_url@.len() == 0,
{
}

/// A second look that sees the same says nothing new.
pub proof fn law_second_look(
    a: RunStatus,
    b: RunStatus,
    c: RunStatus,
    running: bool,
    log_path: Seq<char>,
)
    requires
        sample_lands(a, a.generation, running, false, log_path, b),
        sample_lands(b, a.generation, running, false, log_path, c),
    ensures
        c.running == b.running,
        c.text@ == b.text@,
        c.text_error == b.text_error,
        c.server_error == b.server_error,
        c.launched_url@ == b.launched_url@,
{
}

/// How long a stop waits for the server to go, in milliseconds.
pub const STOP_CAP_MS: u64 = 15000;

/// Whether a stop goes on waiting.
pub fn keeps_waiting(running: bool, waited_ms: u64) -> (r: bool)
    ensures
        r == (running && waited_ms < STOP_CAP_MS),
{
    running && waited_ms < STOP_CAP_MS
}

/// What a save of the settings says: a running server still has the old ones.
pub fn saved_text(path: &str, running: bool) -> (r: String)
    ensures
        r@ == "Saved "@ + path@ + if running {
            " — restart llama-server to apply."@
        } else {
            ""@
        },
{
    let mut out: String = "Saved ".to_owned();
    out.append(path);
    out.append(
        if running {
            " — restart llama-server to apply."
        } else {
            ""
        },
    );
    out
}

} // verus!
