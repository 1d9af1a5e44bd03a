//! Planning a benchmark: what is measured, with which arguments, and how the
//! engines' replies are read.
//!
//! Two engines measure a preset. The live one asks the running server for a chat
//! completion ([`live_body`]) and reads the rates out of the reply
//! ([`parse_timings`]); the synthetic one runs llama-bench ([`synthetic_argv`])
//! and reads its rows ([`parse_bench_line`]). Rates are decimal numbers that
//! nothing here computes with, so they are held as numerals.
use vstd::prelude::*;
use vstd::slice::slice_subrange;
use vstd::string::*;
use vstd::utf8::encode_utf8;
use crate::decimal::{decimal_text, is_not_finite, not_finite, numeral_text};
use crate::devices::{devs, Device, DeviceOption};
use crate::json::{
    get_in, int_at, int_json, int_of, int_or_zero, json_compact, json_pretty, json_read, json_value,
    member, numeral_at, numeral_of, parse_json, read_json, text_of, write_compact, write_pretty,
    Json, JsonView,
};
use crate::presets::Preset;
use crate::server_cfg::ServerConfig;
use crate::sha256::{hex, hex_digest, short};
use crate::text::{
    dec, dec_int, entries, entries_of, from_chars, int_str, join, join_strs, lower_all, opt,
    parse_signed, pieces, push_dec, push_int, read_int, replace_all, replaced_all, str_eq,
    str_eq_ignore_case, strs, to_chars, to_strings, trim, trim_str, trimmed,
};

verus! {

/// The lengths of prompts and the depths that a synthetic run measures by default.
pub const DEFAULT_PROMPT_LENS: &'static str = "2048,8192,32768";

pub const DEFAULT_DEPTHS: &'static str = "0,8192,32768";

/// Where the server takes a chat request.
pub const LIVE_PATH: &'static str = "/v1/chat/completions";

/// The tests of the live engine.
pub const LIVE_PREFILL: &'static str = "prefill";

pub const LIVE_DECODE: &'static str = "decode";

/// What a prompt file holds until somebody edits it.
pub const DEFAULT_PROMPT: &'static str = "Explain how a transformer decoder's key-value cache works, why the cost of processing a prompt grows with its length, and what a speculative decoding draft model changes about the decode step. Write about 200 words of plain prose.";

pub const DEFAULT_GEN: i32 = 128;

pub const DEFAULT_REPS: i32 = 3;

pub const DEFAULT_DELAY_SECS: i32 = 2;

pub const DEFAULT_MAX_TOKENS: i32 = 256;

/// How much of a prompt the preview shows.
pub const PREVIEW_PROMPT_CHARS: usize = 400;

/// How much of a prompt the report embeds.
pub const REPORT_PROMPT_CHARS: usize = 4096;

/// Which engine measures.
#[derive(Clone, Copy, PartialEq, Eq, Structural, Debug)]
pub enum Mode {
    /// The running llama-server.
    Live,
    /// llama-bench.
    Synthetic,
}

impl Mode {
    pub open spec fn word(self) -> Seq<char> {
        match self {
            Mode::Live => "live"@,
            Mode::Synthetic => "synthetic"@,
        }
    }

    pub fn as_str(self) -> (r: &'static str)
        ensures
            r@ == self.word(),
    {
        match self {
            Mode::Live => "live",
            Mode::Synthetic => "synthetic",
        }
    }

    /// The mode of a word; anything but `synthetic` is the live one.
    pub fn from_str(s: &str) -> (r: Mode)
        ensures
            r == if s@ == "synthetic"@ {
                Mode::Synthetic
            } else {
                Mode::Live
            },
    {
        if str_eq(s, "synthetic") {
            Mode::Synthetic
        } else {
            Mode::Live
        }
    }
}

/// The word of a mode names it.
pub proof fn law_mode_round_trips(m: Mode)
    ensures
        (m.word() == "synthetic"@) == (m == Mode::Synthetic),
{
    reveal_strlit("live");
    reveal_strlit("synthetic");
    assert("live"@.len() != "synthetic"@.len());
}

// ── The prompt ───────────────────────────────────────────────────────────

/// A prompt as it is sent: without a byte-order mark, with LF line ends.
pub open spec fn normalized(raw: Seq<char>) -> Seq<char> {
    replace_all(
        if raw.len() > 0 && raw[0] == '\u{feff}' {
            raw.skip(1)
        } else {
            raw
        },
        "\r\n"@,
        "\n"@,
    )
}

/// The prompt in a file's text.
pub fn normalize_prompt(raw: &str) -> (r: String)
    ensures
        r@ == normalized(raw@),
{
    let c = to_chars(raw);
    proof {
        reveal_strlit("\r\n");
    }
    if c.len() > 0 && c[0] == '\u{feff}' {
        let rest = slice_subrange(c.as_slice(), 1, c.len());
        assert(rest@ =~= raw@.skip(1));
        replaced_all(rest, "\r\n", "\n")
    } else {
        replaced_all(c.as_slice(), "\r\n", "\n")
    }
}

/// The prompt of a file, or the complaint about one that holds nothing.
pub fn prompt_of_file(raw: &str, path: &str) -> (r: Result<String, String>)
    ensures
        match r {
            Ok(t) => t@ == normalized(raw@) && trim(t@).len() > 0,
            Err(e) => trim(normalized(raw@)).len() == 0 && e@ == "the prompt file "@ + path@
                + " is empty"@,
        },
{
    let text = normalize_prompt(raw);
    let c = to_chars(text.as_str());
    if trimmed(c.as_slice()).len() == 0 {
        let mut e: String = "the prompt file ".to_owned();
        e.append(path);
        e.append(" is empty");
        return Err(e);
    }
    Ok(text)
}

/// What identifies a prompt: its size and its digest.
#[derive(Clone, Debug, PartialEq, Eq)]
pub struct PromptInfo {
    pub chars: usize,
    pub bytes: usize,
    pub sha256: String,
}

/// The size and the digest of a prompt.
pub fn prompt_info(text: &str) -> (r: PromptInfo)
    ensures
        r.chars == text@.len(),
        r.bytes == encode_utf8(text@).len(),
        r.sha256@ == hex_digest(encode_utf8(text@)),
{
    let c = to_chars(text);
    let b = text.as_bytes();
    PromptInfo { chars: c.len(), bytes: b.len(), sha256: hex(b) }
}

/// The line under the prompt field.
pub open spec fn prompt_line(chars: nat, bytes: Seq<u8>) -> Seq<char> {
    dec(chars) + " chars, "@ + dec(bytes.len()) + " bytes, sha256 "@ + hex_digest(bytes).take(12)
}

/// The line under the prompt field.
pub fn prompt_summary(text: &str) -> (r: String)
    ensures
        r@ == prompt_line(text@.len(), encode_utf8(text@)),
{
    let info = prompt_info(text);
    let digits = short(text.as_bytes());
    let mut out: String = String::new();
    push_dec(&mut out, info.chars as u64);
    out.append(" chars, ");
    push_dec(&mut out, info.bytes as u64);
    out.append(" bytes, sha256 ");
    out.append(digits.as_str());
    assert(out@ =~= prompt_line(text@.len(), encode_utf8(text@)));
    out
}

/// A text cut behind `cap` characters, with a line that says so.
pub open spec fn elided(text: Seq<char>, cap: nat) -> Seq<char> {
    if text.len() <= cap {
        text
    } else {
        text.take(cap as int) + "\n[truncated: "@ + dec(cap) + " of "@ + dec(text.len())
            + " chars shown]"@
    }
}

pub fn elide(c: &[char], cap: usize) -> (r: String)
    ensures
        r@ == elided(c@, cap as nat),
{
    let total: usize = c.len();
    if total <= cap {
        return from_chars(c);
    }
    let head = slice_subrange(c, 0, cap);
    assert(head@ =~= c@.take(cap as int));
    let mut out: String = from_chars(head);
    out.append("\n[truncated: ");
    push_dec(&mut out, cap as u64);
    out.append(" of ");
    push_dec(&mut out, total as u64);
    out.append(" chars shown]");
    out
}

// ── The plan ─────────────────────────────────────────────────────────────

/// One benchmark. Each mode reads its own half of the workload.
#[derive(Debug, Clone, PartialEq, Eq)]
pub struct Plan {
    pub mode: Mode,
    /// The presets in the order they run; the first is the baseline.
    pub presets: Vec<String>,
    pub reps: i32,
    /// The text of the prompt.
    pub prompt: String,
    /// The path of the file it was read from; none where it was given inline.
    pub prompt_file: Option<String>,
    /// The temperature, as decimal text; none leaves the preset's own.
    pub temp: Option<String>,
    pub max_tokens: i32,
    pub prompt_lens: Vec<i32>,
    pub depths: Vec<i32>,
    pub n_gen: i32,
}

impl Plan {
    /// The plan that a user begins with, given where the prompt file is. The prompt is
    /// not resolved: whoever runs the plan reads the file.
    pub fn default_at(prompt_file: &str) -> (r: Self)
        ensures
            r.mode == Mode::Live,
            r.presets@.len() == 0,
            r.reps == DEFAULT_REPS,
            r.prompt@.len() == 0,
            opt(r.prompt_file) == Some(prompt_file@),
            opt(r.temp) == Some("0"@),
            r.max_tokens == DEFAULT_MAX_TOKENS,
            r.prompt_lens@ == seq![2048i32, 8192i32, 32768i32],
            r.depths@ == seq![0i32, 8192i32, 32768i32],
            r.n_gen == DEFAULT_GEN,
    {
        Plan {
            mode: Mode::Live,
            presets: Vec::new(),
            reps: DEFAULT_REPS,
            prompt: String::new(),
            prompt_file: Some(prompt_file.to_owned()),
            temp: Some("0".to_owned()),
            max_tokens: DEFAULT_MAX_TOKENS,
            prompt_lens: vec![2048, 8192, 32768],
            depths: vec![0, 8192, 32768],
            n_gen: DEFAULT_GEN,
        }
    }
}

/// The whole numbers among the entries of a list.
pub open spec fn numbers_in(v: Seq<Seq<char>>) -> Seq<i32>
    decreases v.len(),
{
    if v.len() == 0 {
        Seq::empty()
    } else {
        match parse_signed(v.last(), i32::MIN as int, i32::MAX as int) {
            Some(n) => numbers_in(v.drop_last()).push(n as i32),
            None => numbers_in(v.drop_last()),
        }
    }
}

/// The whole numbers of a comma-separated list; what is not one is dropped.
pub fn parse_int_list(s: &str) -> (r: Vec<i32>)
    ensures
        r@ == numbers_in(entries(s@, ',')),
{
    let c = to_chars(s);
    let parts = entries_of(c.as_slice(), ',');
    let mut out: Vec<i32> = Vec::new();
    let mut i: usize = 0;
    assert(out@ =~= numbers_in(pieces(parts@).take(0)));
    while i < parts.len()
        invariant
            i <= parts.len(),
            out@ == numbers_in(pieces(parts@).take(i as int)),
        decreases parts.len() - i,
    {
        proof {
            let t = pieces(parts@).take(i + 1);
            assert(t.drop_last() =~= pieces(parts@).take(i as int));
            assert(t.last() == parts@[i as int]@);
        }
        if let Some(n) = read_int(parts[i], i32::MIN as i64, i32::MAX as i64) {
            out.push(n as i32);
        }
        i += 1;
    }
    assert(pieces(parts@).take(parts@.len() as int) =~= pieces(parts@));
    out
}

/// The numerals of a list of numbers.
pub open spec fn numerals(v: Seq<i32>) -> Seq<Seq<char>> {
    v.map_values(|n: i32| dec_int(n as int))
}

/// A list of numbers with commas between them.
pub fn render_int_list(v: &[i32]) -> (r: String)
    ensures
        r@ == join(numerals(v@), ","@),
{
    let mut parts: Vec<String> = Vec::new();
    let mut i: usize = 0;
    while i < v.len()
        invariant
            i <= v.len(),
            parts@.len() == i,
            forall|k: int| 0 <= k < i ==> (#[trigger] parts@[k])@ == dec_int(v@[k] as int),
        decreases v.len() - i,
    {
        parts.push(int_str(v[i] as i64));
        i += 1;
    }
    assert(strs(parts@) =~= numerals(v@));
    join_strs(&parts, ",")
}

/// Why a plan cannot run, or none where it can.
pub open spec fn plan_problem(plan: Plan) -> Option<Seq<char>> {
    if plan.presets@.len() == 0 {
        Some("Select at least one preset to benchmark."@)
    } else if plan.reps < 1 {
        Some("Repetitions must be at least 1."@)
    } else if plan.mode == Mode::Live {
        if trim(plan.prompt@).len() == 0 {
            match plan.prompt_file {
                Some(p) => Some("The live mode needs a prompt: "@ + p@ + " is empty."@),
                None => Some("The live mode needs a prompt."@),
            }
        } else if plan.max_tokens < 1 {
            Some("Max output tokens must be at least 1."@)
        } else {
            None
        }
    } else if plan.prompt_lens@.len() == 0 && plan.n_gen <= 0 {
        Some("Give at least one prompt length, or a non-zero generation length."@)
    } else {
        None
    }
}

/// Why a plan cannot run.
pub fn validate(plan: &Plan) -> (r: Option<String>)
    ensures
        opt(r) == plan_problem(*plan),
{
    if plan.presets.len() == 0 {
        return Some("Select at least one preset to benchmark.".to_owned());
    }
    if plan.reps < 1 {
        return Some("Repetitions must be at least 1.".to_owned());
    }
    match plan.mode {
        Mode::Live => {
            let c = to_chars(plan.prompt.as_str());
            if trimmed(c.as_slice()).len() == 0 {
                return match &plan.prompt_file {
                    Some(p) => {
                        let mut out: String = "The live mode needs a prompt: ".to_owned();
                        out.append(p.as_str());
                        out.append(" is empty.");
                        Some(out)
                    },
                    None => Some("The live mode needs a prompt.".to_owned()),
                };
            }
            if plan.max_tokens < 1 {
                return Some("Max output tokens must be at least 1.".to_owned());
            }
        },
        Mode::Synthetic => {
            if synthetic_sweeps(plan).len() == 0 {
                return Some(
                    "Give at least one prompt length, or a non-zero generation length.".to_owned(),
                );
            }
        },
    }
    None
}

// ── Where a preset runs ──────────────────────────────────────────────────

/// The placement a preset actually runs with.
#[derive(Debug, Clone, PartialEq, Eq)]
pub struct Effective {
    pub device: String,
    pub tensor_split: String,
    pub split_mode: String,
    pub override_tensor: String,
}

/// Whether a setting of the server holds anything.
pub open spec fn is_set(v: Option<String>) -> bool {
    match v {
        Some(s) => trim(s@).len() > 0,
        None => false,
    }
}

/// The server's setting where it holds anything, the preset's where it does not.
pub open spec fn shadowed(server: Option<String>, preset: Seq<char>) -> Seq<char> {
    if is_set(server) {
        trim(server->0@)
    } else {
        trim(preset)
    }
}

fn holds(v: &Option<String>) -> (r: bool)
    ensures
        r == is_set(*v),
{
    match v {
        Some(s) => {
            let c = to_chars(s.as_str());
            trimmed(c.as_slice()).len() > 0
        },
        None => false,
    }
}

fn shadow(server: &Option<String>, preset: &str) -> (r: String)
    ensures
        r@ == shadowed(*server, preset@),
{
    if holds(server) {
        if let Some(s) = server {
            return trim_str(s.as_str());
        }
    }
    trim_str(preset)
}

/// The split that a preset runs with: the server's, even an empty one, where the
/// server names the devices.
pub open spec fn effective_split(p: Preset, cfg: ServerConfig) -> Seq<char> {
    if is_set(cfg.device) {
        match cfg.tensor_split {
            Some(s) => trim(s@),
            None => Seq::empty(),
        }
    } else {
        trim(p.tensor_split@)
    }
}

/// The placement that a preset runs with. The server's own settings go over every
/// preset; devices and split go over it together.
pub fn effective(p: &Preset, cfg: &ServerConfig) -> (r: Effective)
    ensures
        r.device@ == shadowed(cfg.device, p.device@),
        r.tensor_split@ == effective_split(*p, *cfg),
        r.split_mode@ == shadowed(cfg.split_mode, p.split_mode@),
        r.override_tensor@ == shadowed(cfg.override_tensor, p.override_tensor@),
{
    let tensor_split = if holds(&cfg.device) {
        match &cfg.tensor_split {
            Some(s) => trim_str(s.as_str()),
            None => String::new(),
        }
    } else {
        trim_str(p.tensor_split.as_str())
    };
    Effective {
        device: shadow(&cfg.device, p.device.as_str()),
        tensor_split,
        split_mode: shadow(&cfg.split_mode, p.split_mode.as_str()),
        override_tensor: shadow(&cfg.override_tensor, p.override_tensor.as_str()),
    }
}

/// A comma-separated list with another separator.
pub open spec fn reseparated(csv: Seq<char>, sep: Seq<char>) -> Seq<char> {
    join(entries(csv, ','), sep)
}

fn reseparate(csv: &str, sep: &str) -> (r: String)
    ensures
        r@ == reseparated(csv@, sep@),
{
    let c = to_chars(csv);
    let parts = entries_of(c.as_slice(), ',');
    let v = to_strings(&parts);
    join_strs(&v, sep)
}

/// A comma-separated list with slashes: llama-bench takes a comma for "as separate
/// configurations".
pub fn slashed(csv: &str) -> (r: String)
    ensures
        r@ == reseparated(csv@, "/"@),
{
    reseparate(csv, "/")
}

/// A comma-separated list with semicolons.
pub fn semicoloned(csv: &str) -> (r: String)
    ensures
        r@ == reseparated(csv@, ";"@),
{
    reseparate(csv, ";")
}

// ── llama-bench's arguments ──────────────────────────────────────────────

/// One invocation of llama-bench: the half of the workload that it measures.
#[derive(Debug, Clone, PartialEq, Eq)]
pub struct Sweep {
    pub name: &'static str,
    pub args: Vec<String>,
}

/// A half of the workload as text.
pub struct SweepView {
    pub name: Seq<char>,
    pub args: Seq<Seq<char>>,
}

impl View for Sweep {
    type V = SweepView;

    open spec fn view(&self) -> SweepView {
        SweepView { name: self.name@, args: strs(self.args@) }
    }
}

pub open spec fn sweeps_view(v: Seq<Sweep>) -> Seq<SweepView> {
    v.map_values(|s: Sweep| s@)
}

/// The prefill half: prompt lengths, nothing generated, no depths.
pub open spec fn prefill_half(plan: Plan) -> SweepView {
    SweepView {
        name: "prefill"@,
        args: seq!["-p"@, join(numerals(plan.prompt_lens@), ","@), "-n"@, "0"@],
    }
}

/// The decode half: no prompt, the generated length, and the depths.
pub open spec fn decode_half(plan: Plan) -> SweepView {
    let head = seq!["-p"@, "0"@, "-n"@, dec_int(plan.n_gen as int)];
    SweepView {
        name: "decode"@,
        args: if plan.depths@.len() == 0 {
            head
        } else {
            head + seq!["-d"@, join(numerals(plan.depths@), ","@)]
        },
    }
}

/// The halves of a workload. They are two invocations, because depths would
/// multiply the prompt lengths too.
pub open spec fn workload(plan: Plan) -> Seq<SweepView> {
    (if plan.prompt_lens@.len() > 0 {
        seq![prefill_half(plan)]
    } else {
        Seq::empty()
    }) + (if plan.n_gen > 0 {
        seq![decode_half(plan)]
    } else {
        Seq::empty()
    })
}

/// The halves of a plan's workload.
pub fn synthetic_sweeps(plan: &Plan) -> (r: Vec<Sweep>)
    ensures
        sweeps_view(r@) == workload(*plan),
        r@.len() == workload(*plan).len(),
{
    let mut out: Vec<Sweep> = Vec::new();
    if plan.prompt_lens.len() > 0 {
        let mut args: Vec<String> = Vec::new();
        args.push("-p".to_owned());
        args.push(render_int_list(plan.prompt_lens.as_slice()));
        args.push("-n".to_owned());
        args.push("0".to_owned());
        assert(strs(args@) =~= prefill_half(*plan).args);
        out.push(Sweep { name: "prefill", args });
    }
    let ghost first = out@;
    if plan.n_gen > 0 {
        let mut args: Vec<String> = Vec::new();
        args.push("-p".to_owned());
        args.push("0".to_owned());
        args.push("-n".to_owned());
        args.push(int_str(plan.n_gen as i64));
        if plan.depths.len() > 0 {
            args.push("-d".to_owned());
            args.push(render_int_list(plan.depths.as_slice()));
        }
        assert(strs(args@) =~= decode_half(*plan).args);
        out.push(Sweep { name: "decode", args });
    }
    assert(sweeps_view(out@) =~= workload(*plan));
    out
}

/// A flag and its value, where a condition holds.
pub open spec fn flag_if(on: bool, flag: Seq<char>, value: Seq<char>) -> Seq<Seq<char>> {
    if on {
        seq![flag, value]
    } else {
        Seq::empty()
    }
}

pub open spec fn number_flag(flag: Seq<char>, v: Option<i32>) -> Seq<Seq<char>> {
    match v {
        Some(n) => seq![flag, dec_int(n as int)],
        None => Seq::empty(),
    }
}

/// The flags that place a preset's model.
pub open spec fn placement_flags(p: Preset, cfg: ServerConfig) -> Seq<Seq<char>> {
    let device = shadowed(cfg.device, p.device@);
    let split = effective_split(p, cfg);
    let mode = shadowed(cfg.split_mode, p.split_mode@);
    let pins = shadowed(cfg.override_tensor, p.override_tensor@);
    flag_if(device.len() > 0, "-dev"@, reseparated(device, "/"@)) + flag_if(
        split.len() > 0,
        "-ts"@,
        reseparated(split, "/"@),
    ) + flag_if(mode.len() > 0 && mode != "default"@, "-sm"@, mode) + flag_if(
        pins.len() > 0,
        "-ot"@,
        reseparated(pins, ";"@),
    )
}

/// The flags that set a preset's own numbers.
pub open spec fn preset_flags(p: Preset) -> Seq<Seq<char>> {
    number_flag("-ngl"@, p.n_gpu_layers) + number_flag("-ncmoe"@, p.n_cpu_moe) + flag_if(
        p.cache_type_k@.len() > 0,
        "-ctk"@,
        p.cache_type_k@,
    ) + flag_if(p.cache_type_v@.len() > 0, "-ctv"@, p.cache_type_v@) + flag_if(
        p.flash_attn is Some,
        "-fa"@,
        if p.flash_attn == Some(true) {
            "on"@
        } else {
            "off"@
        },
    ) + number_flag("-b"@, p.batch_size) + number_flag("-ub"@, p.ubatch_size)
}

/// llama-bench's arguments for one half of the workload of a preset. A load mode
/// other than `auto` is named.
pub open spec fn bench_argv(
    p: Preset,
    cfg: ServerConfig,
    load_mode: Seq<char>,
    plan: Plan,
    sweep: SweepView,
) -> Seq<Seq<char>> {
    seq!["-m"@, p.model@] + placement_flags(p, cfg) + preset_flags(p) + flag_if(
        load_mode != "auto"@,
        "-lm"@,
        load_mode,
    ) + number_flag("-t"@, cfg.threads) + sweep.args + seq![
        "-r"@,
        dec_int(plan.reps as int),
        "--delay"@,
        dec_int(DEFAULT_DELAY_SECS as int),
        "-o"@,
        "jsonl"@,
        "--progress"@,
    ]
}

fn push_flag(a: &mut Vec<String>, on: bool, flag: &str, value: String)
    ensures
        strs(final(a)@) == strs(old(a)@) + flag_if(on, flag@, value@),
{
    if on {
        a.push(flag.to_owned());
        a.push(value);
    }
    assert(strs(a@) =~= strs(old(a)@) + flag_if(on, flag@, value@));
}

fn push_number(a: &mut Vec<String>, flag: &str, v: Option<i32>)
    ensures
        strs(final(a)@) == strs(old(a)@) + number_flag(flag@, v),
{
    if let Some(n) = v {
        a.push(flag.to_owned());
        a.push(int_str(n as i64));
    }
    assert(strs(a@) =~= strs(old(a)@) + number_flag(flag@, v));
}

fn push_placement(a: &mut Vec<String>, p: &Preset, cfg: &ServerConfig)
    ensures
        strs(final(a)@) == strs(old(a)@) + placement_flags(*p, *cfg),
{
    let eff = effective(p, cfg);
    let ghost start = strs(a@);
    push_flag(a, !eff.device.as_str().is_empty(), "-dev", slashed(eff.device.as_str()));
    push_flag(a, !eff.tensor_split.as_str().is_empty(), "-ts", slashed(eff.tensor_split.as_str()));
    let named: bool = !eff.split_mode.as_str().is_empty() && !str_eq(
        eff.split_mode.as_str(),
        "default",
    );
    push_flag(a, named, "-sm", eff.split_mode.clone());
    push_flag(
        a,
        !eff.override_tensor.as_str().is_empty(),
        "-ot",
        semicoloned(eff.override_tensor.as_str()),
    );
    assert(strs(a@) =~= start + placement_flags(*p, *cfg));
}

/// Flags behind flags behind flags.
proof fn lemma_assoc(a: Seq<Seq<char>>, b: Seq<Seq<char>>, c: Seq<Seq<char>>)
    ensures
        a + b + c == a + (b + c),
{
    assert(a + b + c =~= a + (b + c));
}

fn push_preset(a: &mut Vec<String>, p: &Preset)
    ensures
        strs(final(a)@) == strs(old(a)@) + preset_flags(*p),
{
    let ghost start = strs(a@);
    push_number(a, "-ngl", p.n_gpu_layers);
    let ghost f1 = number_flag("-ngl"@, p.n_gpu_layers);
    push_number(a, "-ncmoe", p.n_cpu_moe);
    let ghost f2 = number_flag("-ncmoe"@, p.n_cpu_moe);
    push_flag(a, !p.cache_type_k.as_str().is_empty(), "-ctk", p.cache_type_k.clone());
    let ghost f3 = flag_if(p.cache_type_k@.len() > 0, "-ctk"@, p.cache_type_k@);
    push_flag(a, !p.cache_type_v.as_str().is_empty(), "-ctv", p.cache_type_v.clone());
    let ghost f4 = flag_if(p.cache_type_v@.len() > 0, "-ctv"@, p.cache_type_v@);
    let fa = match p.flash_attn {
        Some(true) => "on".to_owned(),
        _ => "off".to_owned(),
    };
    let ghost f5 = flag_if(p.flash_attn is Some, "-fa"@, fa@);
    push_flag(a, p.flash_attn.is_some(), "-fa", fa);
    push_number(a, "-b", p.batch_size);
    let ghost f6 = number_flag("-b"@, p.batch_size);
    push_number(a, "-ub", p.ubatch_size);
    let ghost f7 = number_flag("-ub"@, p.ubatch_size);
    proof {
        lemma_assoc(start, f1, f2);
        lemma_assoc(start, f1 + f2, f3);
        lemma_assoc(start, f1 + f2 + f3, f4);
        lemma_assoc(start, f1 + f2 + f3 + f4, f5);
        lemma_assoc(start, f1 + f2 + f3 + f4 + f5, f6);
        lemma_assoc(start, f1 + f2 + f3 + f4 + f5 + f6, f7);
    }
}

/// llama-bench's arguments for one half of the workload of a preset. Every row is
/// one flushed line of JSON, so a run that dies keeps what it measured. `load_mode` is
/// how the server loads models, `auto` where nothing else was set.
pub fn synthetic_argv(
    p: &Preset,
    cfg: &ServerConfig,
    load_mode: &str,
    plan: &Plan,
    sweep: &Sweep,
) -> (r: Vec<String>)
    ensures
        strs(r@) == bench_argv(*p, *cfg, load_mode@, *plan, sweep@),
{
    let mut a: Vec<String> = Vec::new();
    a.push("-m".to_owned());
    a.push(p.model.clone());
    assert(strs(a@) =~= seq!["-m"@, p.model@]);
    push_placement(&mut a, p, cfg);
    push_preset(&mut a, p);
    push_flag(&mut a, !str_eq(load_mode, "auto"), "-lm", load_mode.to_owned());
    push_number(&mut a, "-t", cfg.threads);
    let ghost head = strs(a@);
    let mut i: usize = 0;
    assert(head + sweep@.args.take(0) =~= head);
    while i < sweep.args.len()
        invariant
            i <= sweep.args.len(),
            sweep@.args == strs(sweep.args@),
            strs(a@) == head + sweep@.args.take(i as int),
        decreases sweep.args.len() - i,
    {
        let ghost before = a@;
        a.push(sweep.args[i].clone());
        proof {
            assert(strs(a@) =~= strs(before).push(sweep.args@[i as int]@));
            assert(sweep@.args.take(i + 1) =~= sweep@.args.take(i as int).push(sweep@.args[i as int]));
            assert(strs(a@) =~= head + sweep@.args.take(i + 1));
        }
        i += 1;
    }
    assert(sweep@.args.take(sweep.args@.len() as int) =~= sweep@.args);
    let ghost mid = a@;
    a.push("-r".to_owned());
    a.push(int_str(plan.reps as i64));
    a.push("--delay".to_owned());
    a.push(int_str(DEFAULT_DELAY_SECS as i64));
    a.push("-o".to_owned());
    a.push("jsonl".to_owned());
    a.push("--progress".to_owned());
    assert(strs(a@) =~= strs(mid) + seq![
        "-r"@,
        dec_int(plan.reps as int),
        "--delay"@,
        dec_int(DEFAULT_DELAY_SECS as int),
        "-o"@,
        "jsonl"@,
        "--progress"@,
    ]);
    a
}

// ── The live request ─────────────────────────────────────────────────────

/// A decimal text as a JSON number that stays a decimal one; null where it is no
/// number.
pub open spec fn decimal_json(s: Seq<char>) -> JsonView {
    if not_finite(s) {
        JsonView::Null
    } else {
        JsonView::Number(None, decimal_text(s))
    }
}

pub fn decimal_number(s: &str) -> (r: Json)
    ensures
        r.shape() == decimal_json(s@),
{
    if is_not_finite(s) {
        return Json::Null;
    }
    Json::Number(None, numeral_text(s))
}

/// A chat request of one message, which no prefix cache may answer.
pub open spec fn chat_request(
    preset: Seq<char>,
    content: Seq<char>,
    max_tokens: i64,
    temp: Option<Seq<char>>,
) -> JsonView {
    let message = JsonView::Object(
        seq![("role"@, JsonView::Text("user"@)), ("content"@, JsonView::Text(content))],
    );
    let base = seq![
        ("model"@, JsonView::Text(preset)),
        ("messages"@, JsonView::List(seq![message])),
        ("max_tokens"@, int_json(max_tokens)),
        ("stream"@, JsonView::Bool(false)),
        ("cache_prompt"@, JsonView::Bool(false)),
    ];
    JsonView::Object(
        match temp {
            Some(t) => base.push(("temperature"@, decimal_json(t))),
            None => base,
        },
    )
}

fn chat_json(preset: &str, content: &str, max_tokens: i64, temp: &Option<String>) -> (r: Json)
    ensures
        r.shape() == chat_request(preset@, content@, max_tokens, opt(*temp)),
{
    let mut message: Vec<(String, Json)> = Vec::new();
    message.push(("role".to_owned(), Json::text("user")));
    message.push(("content".to_owned(), Json::text(content)));
    let m = Json::Object(message);
    let ghost m_view = JsonView::Object(
        seq![("role"@, JsonView::Text("user"@)), ("content"@, JsonView::Text(content@))],
    );
    assert(m.shape()->Object_0 =~= m_view->Object_0);
    assert(m.shape() == m_view);
    let mut messages: Vec<Json> = Vec::new();
    messages.push(m);
    let list = Json::List(messages);
    assert(list.shape()->List_0 =~= seq![m_view]);
    assert(list.shape() == JsonView::List(seq![m_view]));
    let mut body: Vec<(String, Json)> = Vec::new();
    body.push(("model".to_owned(), Json::text(preset)));
    body.push(("messages".to_owned(), list));
    body.push(("max_tokens".to_owned(), Json::number(max_tokens)));
    body.push(("stream".to_owned(), Json::flag(false)));
    body.push(("cache_prompt".to_owned(), Json::flag(false)));
    if let Some(t) = temp {
        body.push(("temperature".to_owned(), decimal_number(t.as_str())));
    }
    let r = Json::Object(body);
    assert(r.shape()->Object_0 =~= chat_request(preset@, content@, max_tokens, opt(*temp))->Object_0);
    r
}

fn live_body_with(preset_id: &str, plan: &Plan, content: &str) -> (r: String)
    ensures
        r@ == json_pretty(
            chat_request(preset_id@, content@, plan.max_tokens as i64, opt(plan.temp)),
        ),
{
    let j = chat_json(preset_id, content, plan.max_tokens as i64, &plan.temp);
    write_pretty(&j)
}

/// The body of a live request: the whole prompt.
pub fn live_body(preset_id: &str, plan: &Plan) -> (r: String)
    ensures
        r@ == json_pretty(
            chat_request(preset_id@, plan.prompt@, plan.max_tokens as i64, opt(plan.temp)),
        ),
{
    live_body_with(preset_id, plan, plan.prompt.as_str())
}

/// The request as a reader sees it before a run: the prompt cut short.
pub open spec fn preview_text(port: u16, preset_id: Seq<char>, plan: Plan) -> Seq<char> {
    "POST http://127.0.0.1:"@ + dec(port as nat) + "/v1/chat/completions\n"@ + json_pretty(
        chat_request(
            preset_id,
            elided(plan.prompt@, PREVIEW_PROMPT_CHARS as nat),
            plan.max_tokens as i64,
            opt(plan.temp),
        ),
    )
}

/// The request as a reader sees it before a run: the prompt cut short.
pub fn live_preview(port: u16, preset_id: &str, plan: &Plan) -> (r: String)
    ensures
        r@ == preview_text(port, preset_id@, *plan),
{
    let c = to_chars(plan.prompt.as_str());
    let shown = elide(c.as_slice(), PREVIEW_PROMPT_CHARS);
    let body = live_body_with(preset_id, plan, shown.as_str());
    let mut out: String = "POST http://127.0.0.1:".to_owned();
    push_dec(&mut out, port as u64);
    out.append("/v1/chat/completions\n");
    out.append(body.as_str());
    out
}

/// The request that loads a model without measuring anything.
pub fn warmup_body(preset_id: &str) -> (r: String)
    ensures
        r@ == json_compact(chat_request(preset_id@, "hi"@, 1, None)),
{
    let j = chat_json(preset_id, "hi", 1, &None);
    write_compact(&j)
}

// ── Reading the replies ──────────────────────────────────────────────────

/// What a reply says of one request. The rates are numerals.
#[derive(Debug, Clone, PartialEq, Eq)]
pub struct Timings {
    pub prompt_n: i64,
    pub prompt_tps: String,
    pub predicted_n: i64,
    pub predicted_tps: String,
    pub cache_n: i64,
    pub draft_n: i64,
    pub draft_accepted: i64,
}

impl Timings {
    /// Whether anything was drafted: without a draft there is no rate of
    /// acceptance.
    pub fn drafted(&self) -> (r: bool)
        ensures
            r == (self.draft_n > 0),
    {
        self.draft_n > 0
    }
}

/// The message of an error reply.
pub open spec fn error_message(v: JsonView) -> Option<Seq<char>> {
    match member(v, "error"@) {
        Some(e) => text_of(member(e, "message"@)),
        None => None,
    }
}

pub open spec fn rate_or_zero(v: Option<JsonView>) -> Seq<char> {
    match numeral_of(v) {
        Some(s) => s,
        None => "0"@,
    }
}

/// The timings in a reply. An error reply fails with its own message.
pub open spec fn timings_are(t: Timings, v: JsonView) -> bool {
    &&& t.prompt_n == int_or_zero(member(v, "prompt_n"@))
    &&& t.prompt_tps@ == rate_or_zero(member(v, "prompt_per_second"@))
    &&& t.predicted_n == int_or_zero(member(v, "predicted_n"@))
    &&& t.predicted_tps@ == rate_or_zero(member(v, "predicted_per_second"@))
    &&& t.cache_n == int_or_zero(member(v, "cache_n"@))
    &&& t.draft_n == int_or_zero(member(v, "draft_n"@))
    &&& t.draft_accepted == int_or_zero(member(v, "draft_n_accepted"@))
}

pub fn rate_at(j: &Json, key: &str) -> (r: String)
    ensures
        r@ == rate_or_zero(member(j.shape(), key@)),
{
    match numeral_at(j, key) {
        Some(s) => s,
        None => "0".to_owned(),
    }
}

/// Reads a reply that was JSON.
pub fn timings_of(v: &Json) -> (r: Result<Timings, String>)
    ensures
        match r {
            Ok(t) => error_message(v.shape()) is None && member(v.shape(), "timings"@) is Some
                && timings_are(t, member(v.shape(), "timings"@)->0),
            Err(e) => match error_message(v.shape()) {
                Some(m) => e@ == m,
                None => member(v.shape(), "timings"@) is None && e@
                    == "no timings in the response (is this llama-server?)"@,
            },
        },
{
    if let Some(m) = get_in(v.get("error"), "message") {
        if let Some(s) = m.as_str() {
            return Err(s.to_owned());
        }
    }
    match v.get("timings") {
        Some(t) => Ok(
            Timings {
                prompt_n: int_at(t, "prompt_n"),
                prompt_tps: rate_at(t, "prompt_per_second"),
                predicted_n: int_at(t, "predicted_n"),
                predicted_tps: rate_at(t, "predicted_per_second"),
                cache_n: int_at(t, "cache_n"),
                draft_n: int_at(t, "draft_n"),
                draft_accepted: int_at(t, "draft_n_accepted"),
            },
        ),
        None => Err("no timings in the response (is this llama-server?)".to_owned()),
    }
}

/// Reads a reply.
pub fn parse_timings(body: &str) -> (r: Result<Timings, String>)
    ensures
        match json_read(body@) {
            Err(fault) => r is Err && r->Err_0@ == "unreadable response: "@ + fault,
            Ok(v) => match r {
                Ok(t) => error_message(v) is None && member(v, "timings"@) is Some && timings_are(
                    t,
                    member(v, "timings"@)->0,
                ),
                Err(e) => match error_message(v) {
                    Some(m) => e@ == m,
                    None => member(v, "timings"@) is None && e@
                        == "no timings in the response (is this llama-server?)"@,
                },
            },
        },
{
    match parse_json(body) {
        Ok(v) => timings_of(&v),
        Err(fault) => {
            let mut out: String = "unreadable response: ".to_owned();
            out.append(fault.as_str());
            Err(out)
        },
    }
}

/// llama-bench's own label of a test.
pub open spec fn test_label(n_prompt: i64, n_gen: i64, n_depth: i64) -> Seq<char> {
    let head = if n_prompt > 0 {
        "pp"@ + dec_int(n_prompt as int)
    } else {
        "tg"@ + dec_int(n_gen as int)
    };
    if n_depth > 0 {
        head + " @ d"@ + dec_int(n_depth as int)
    } else {
        head
    }
}

/// llama-bench's own label of a test.
pub fn bench_test_label(n_prompt: i64, n_gen: i64, n_depth: i64) -> (r: String)
    ensures
        r@ == test_label(n_prompt, n_gen, n_depth),
{
    let mut out: String = if n_prompt > 0 {
        "pp".to_owned()
    } else {
        "tg".to_owned()
    };
    if n_prompt > 0 {
        push_int(&mut out, n_prompt);
    } else {
        push_int(&mut out, n_gen);
    }
    if n_depth > 0 {
        out.append(" @ d");
        push_int(&mut out, n_depth);
    }
    out
}

/// One measured test of one preset, with the numerals of its mean and its spread.
#[derive(Debug, Clone, PartialEq, Eq)]
pub struct Measured {
    pub preset: String,
    pub test: String,
    pub mean: String,
    pub sd: String,
    pub n: i32,
    pub note: String,
}

/// Reads a row that was JSON. What has no mean is no row.
pub fn bench_row_of(v: &Json, preset: &str, reps: i32) -> (r: Option<Measured>)
    ensures
        match r {
            Some(b) => {
                &&& numeral_of(member(v.shape(), "avg_ts"@)) == Some(b.mean@)
                &&& b.preset@ == preset@
                &&& b.test@ == test_label(
                    int_or_zero(member(v.shape(), "n_prompt"@)),
                    int_or_zero(member(v.shape(), "n_gen"@)),
                    int_or_zero(member(v.shape(), "n_depth"@)),
                )
                &&& b.sd@ == rate_or_zero(member(v.shape(), "stddev_ts"@))
                &&& b.n == reps
                &&& b.note@.len() == 0
            },
            None => numeral_of(member(v.shape(), "avg_ts"@)) is None,
        },
{
    let mean = match numeral_at(v, "avg_ts") {
        Some(s) => s,
        None => return None,
    };
    Some(
        Measured {
            preset: preset.to_owned(),
            test: bench_test_label(int_at(v, "n_prompt"), int_at(v, "n_gen"), int_at(v, "n_depth")),
            mean,
            sd: rate_at(v, "stddev_ts"),
            n: reps,
            note: String::new(),
        },
    )
}

/// Reads a line of llama-bench's output. A line that is no row gives none.
pub fn parse_bench_line(line: &str, preset: &str, reps: i32) -> (r: Option<Measured>)
    ensures
        match json_value(trim(line@)) {
            None => r is None,
            Some(v) => match r {
                Some(b) => {
                    &&& numeral_of(member(v, "avg_ts"@)) == Some(b.mean@)
                    &&& b.preset@ == preset@
                    &&& b.test@ == test_label(
                        int_or_zero(member(v, "n_prompt"@)),
                        int_or_zero(member(v, "n_gen"@)),
                        int_or_zero(member(v, "n_depth"@)),
                    )
                    &&& b.sd@ == rate_or_zero(member(v, "stddev_ts"@))
                    &&& b.n == reps
                    &&& b.note@.len() == 0
                },
                None => numeral_of(member(v, "avg_ts"@)) is None,
            },
        },
{
    let t = trim_str(line);
    match read_json(t.as_str()) {
        Some(v) => bench_row_of(&v, preset, reps),
        None => None,
    }
}

/// The build that a value names.
pub open spec fn build_of(v: Option<JsonView>) -> Option<i64> {
    match v {
        Some(j) => int_of(member(j, "build_number"@)),
        None => None,
    }
}

/// The build of llama-bench that a row names.
pub fn bench_build_of(v: &Json) -> (r: Option<i64>)
    ensures
        r == build_of(Some(v.shape())),
{
    match v.get("build_number") {
        Some(n) => n.as_i64(),
        None => None,
    }
}

/// The build of llama-bench that a line names.
pub fn parse_bench_build(line: &str) -> (r: Option<i64>)
    ensures
        r == build_of(json_value(trim(line@))),
{
    let t = trim_str(line);
    match read_json(t.as_str()) {
        Some(v) => bench_build_of(&v),
        None => None,
    }
}

/// The flash-attention setting that a value names, however it is spelled.
pub open spec fn flash_attn_word(v: Option<JsonView>) -> Option<Seq<char>> {
    match v {
        Some(j) => match member(j, "flash_attn"@) {
            Some(JsonView::Bool(b)) => Some(
                if b {
                    "on"@
                } else {
                    "off"@
                },
            ),
            Some(JsonView::Number(n, _)) => Some(
                if n == Some(0i64) {
                    "off"@
                } else {
                    "on"@
                },
            ),
            Some(JsonView::Text(s)) => Some(s),
            _ => None,
        },
        None => None,
    }
}

/// The flash-attention setting that a row resolved to.
pub fn flash_attn_of(v: &Json) -> (r: Option<String>)
    ensures
        opt(r) == flash_attn_word(Some(v.shape())),
{
    match v.get("flash_attn") {
        Some(Json::Bool(b)) => Some(
            if *b {
                "on".to_owned()
            } else {
                "off".to_owned()
            },
        ),
        Some(Json::Number(n, _)) => {
            let off: bool = match *n {
                Some(i) => i == 0,
                None => false,
            };
            Some(
                if off {
                    "off".to_owned()
                } else {
                    "on".to_owned()
                },
            )
        },
        Some(Json::Text(s)) => Some(s.clone()),
        _ => None,
    }
}

/// The flash-attention setting that a line of llama-bench resolved to.
pub fn parse_bench_flash_attn(line: &str) -> (r: Option<String>)
    ensures
        opt(r) == flash_attn_word(json_value(trim(line@))),
{
    let t = trim_str(line);
    match read_json(t.as_str()) {
        Some(v) => flash_attn_of(&v),
        None => None,
    }
}

// ── Devices in a run ─────────────────────────────────────────────────────

/// The name of the first device with an id, or nothing.
pub open spec fn name_of(ds: Seq<Device>, id: Seq<char>) -> Seq<char>
    decreases ds.len(),
{
    if ds.len() == 0 {
        Seq::empty()
    } else if lower_all(ds[0].id) == lower_all(id) {
        ds[0].name
    } else {
        name_of(ds.skip(1), id)
    }
}

/// Pairs of texts.
pub open spec fn pairs(v: Seq<(String, String)>) -> Seq<(Seq<char>, Seq<char>)> {
    v.map_values(|p: (String, String)| (p.0@, p.1@))
}

fn device_name(ds: &[DeviceOption], id: &[char]) -> (r: String)
    ensures
        r@ == name_of(devs(ds@), id@),
{
    let want = from_chars(id);
    let mut i: usize = 0;
    assert(devs(ds@).skip(0) =~= devs(ds@));
    while i < ds.len()
        invariant
            i <= ds.len(),
            want@ == id@,
            name_of(devs(ds@), id@) == name_of(devs(ds@).skip(i as int), id@),
        decreases ds.len() - i,
    {
        proof {
            let rest = devs(ds@).skip(i as int);
            assert(rest[0] == ds@[i as int]@);
            assert(rest.skip(1) =~= devs(ds@).skip(i + 1));
        }
        if str_eq_ignore_case(ds[i].id.as_str(), want.as_str()) {
            return ds[i].name.clone();
        }
        i += 1;
    }
    String::new()
}

/// The devices of a list with what the probe calls each; one that it does not know
/// has no name.
pub fn device_names(list: &str, ds: &[DeviceOption]) -> (r: Vec<(String, String)>)
    ensures
        pairs(r@) == entries(list@, ',').map_values(
            |id: Seq<char>| (id, name_of(devs(ds@), id)),
        ),
{
    let c = to_chars(list);
    let ids = entries_of(c.as_slice(), ',');
    let mut out: Vec<(String, String)> = Vec::new();
    let mut i: usize = 0;
    while i < ids.len()
        invariant
            i <= ids.len(),
            out@.len() == i,
            forall|k: int|
                0 <= k < i ==> (#[trigger] out@[k]).0@ == ids@[k]@ && out@[k].1@ == name_of(
                    devs(ds@),
                    ids@[k]@,
                ),
        decreases ids.len() - i,
    {
        out.push((from_chars(ids[i]), device_name(ds, ids[i])));
        i += 1;
    }
    proof {
        let want = entries(list@, ',').map_values(|id: Seq<char>| (id, name_of(devs(ds@), id)));
        assert(pieces(ids@).len() == ids@.len());
        assert forall|k: int| 0 <= k < out@.len() implies pairs(out@)[k] == want[k] by {
            assert(pieces(ids@)[k] == ids@[k]@);
        }
        assert(pairs(out@) =~= want);
    }
    out
}

/// The devices of one preset that the probe does not know.
pub open spec fn unknown_of(preset: Seq<char>, ds: Seq<(Seq<char>, Seq<char>)>) -> Seq<Seq<char>>
    decreases ds.len(),
{
    if ds.len() == 0 {
        Seq::empty()
    } else {
        let before = unknown_of(preset, ds.drop_last());
        if ds.last().1.len() == 0 {
            before.push(preset + " -> "@ + ds.last().0)
        } else {
            before
        }
    }
}

/// The devices that the probe does not know, of all presets.
pub open spec fn unknown_all(v: Seq<(String, Vec<(String, String)>)>) -> Seq<Seq<char>>
    decreases v.len(),
{
    if v.len() == 0 {
        Seq::empty()
    } else {
        unknown_all(v.drop_last()) + unknown_of(v.last().0@, pairs(v.last().1@))
    }
}

/// The warning about a run whose presets name devices that are not there.
pub open spec fn unknown_warning(bad: Seq<Seq<char>>) -> Option<Seq<char>> {
    if bad.len() == 0 {
        None
    } else {
        Some(
            "Device ids this machine's probe does not know: "@ + join(bad, ", "@)
                + ". The ids are not stable across driver states, so a preset can point at a card that is not there."@,
        )
    }
}

/// The warning about a run whose presets name devices that are not there.
pub fn unknown_device_warning(resolved: &Vec<(String, Vec<(String, String)>)>) -> (r: Option<String>)
    ensures
        opt(r) == unknown_warning(unknown_all(resolved@)),
{
    let mut bad: Vec<String> = Vec::new();
    let mut i: usize = 0;
    assert(strs(bad@) =~= unknown_all(resolved@.take(0)));
    while i < resolved.len()
        invariant
            i <= resolved.len(),
            strs(bad@) == unknown_all(resolved@.take(i as int)),
        decreases resolved.len() - i,
    {
        let ghost done = strs(bad@);
        let preset = &resolved[i].0;
        let list = &resolved[i].1;
        let ghost ps = pairs(list@);
        let mut k: usize = 0;
        assert(done + unknown_of(preset@, ps.take(0)) =~= done);
        while k < list.len()
            invariant
                k <= list.len(),
                ps == pairs(list@),
                strs(bad@) == done + unknown_of(preset@, ps.take(k as int)),
            decreases list.len() - k,
        {
            let ghost before = bad@;
            proof {
                let t = ps.take(k + 1);
                assert(t.drop_last() =~= ps.take(k as int));
                assert(t.last() == ps[k as int]);
            }
            if list[k].1.as_str().is_empty() {
                let mut line: String = preset.clone();
                line.append(" -> ");
                line.append(list[k].0.as_str());
                bad.push(line);
                assert(strs(bad@) =~= strs(before).push(line@));
                assert(strs(bad@) =~= done + unknown_of(preset@, ps.take(k + 1)));
            }
            k += 1;
        }
        proof {
            assert(ps.take(list@.len() as int) =~= ps);
            let t = resolved@.take(i + 1);
            assert(t.drop_last() =~= resolved@.take(i as int));
            assert(t.last() == resolved@[i as int]);
        }
        i += 1;
    }
    assert(resolved@.take(resolved@.len() as int) =~= resolved@);
    assert(strs(bad@).len() == bad@.len());
    if bad.len() == 0 {
        return None;
    }
    let list = join_strs(&bad, ", ");
    let mut out: String = "Device ids this machine's probe does not know: ".to_owned();
    out.append(list.as_str());
    out.append(
        ". The ids are not stable across driver states, so a preset can point at a card that is not there.",
    );
    Some(out)
}

// ── Files and messages ───────────────────────────────────────────────────

/// The names of the files that a run writes: its lines, its report, its log.
pub fn run_paths(stamp: &str) -> (r: (String, String, String))
    ensures
        r.0@ == "bench-"@ + stamp@ + ".jsonl"@,
        r.1@ == "bench-"@ + stamp@ + ".md"@,
        r.2@ == "bench-"@ + stamp@ + ".log"@,
{
    let mut jsonl: String = "bench-".to_owned();
    jsonl.append(stamp);
    jsonl.append(".jsonl");
    let mut md: String = "bench-".to_owned();
    md.append(stamp);
    md.append(".md");
    let mut log: String = "bench-".to_owned();
    log.append(stamp);
    log.append(".log");
    (jsonl, md, log)
}

/// Whether a prompt file is made from the long prompt: only one of that very name
/// is. Any other file starts from the short one.
pub fn seeds_long(name: &Option<String>, long_name: &Option<String>) -> (r: bool)
    ensures
        r == (name is Some && opt(*name) == opt(*long_name)),
{
    match name {
        Some(a) => match long_name {
            Some(b) => str_eq(a.as_str(), b.as_str()),
            None => false,
        },
        None => false,
    }
}

/// The requests of a live run as a reader sees them before it: the first in full,
/// and that the others differ in the model alone.
pub fn live_previews(port: u16, ids: &Vec<String>, plan: &Plan) -> (r: String)
    ensures
        r@ == if ids@.len() == 0 {
            "Select one or more presets above to see what will run."@
        } else {
            preview_text(port, ids@[0]@, *plan) + if ids@.len() == 1 {
                Seq::<char>::empty()
            } else {
                "\n\nThen the same request for: "@ + join(strs(ids@).skip(1), ", "@)
                    + " (only \"model\" differs)."@
            }
        },
{
    if ids.len() == 0 {
        return "Select one or more presets above to see what will run.".to_owned();
    }
    let mut out = live_preview(port, ids[0].as_str(), plan);
    let ghost first = out@;
    if ids.len() > 1 {
        let mut rest: Vec<String> = Vec::new();
        let mut i: usize = 1;
        while i < ids.len()
            invariant
                1 <= i <= ids@.len(),
                rest@.len() == i - 1,
                forall|k: int| 0 <= k < i - 1 ==> (#[trigger] rest@[k])@ == ids@[k + 1]@,
            decreases ids.len() - i,
        {
            rest.push(ids[i].clone());
            i += 1;
        }
        assert(strs(rest@) =~= strs(ids@).skip(1));
        let list = join_strs(&rest, ", ");
        let mut tail: String = "\n\nThen the same request for: ".to_owned();
        tail.append(list.as_str());
        tail.append(" (only \"model\" differs).");
        out.append(tail.as_str());
    } else {
        assert(out@ =~= first + Seq::<char>::empty());
    }
    out
}

/// What a run that ended well says. A synthetic one has left the server stopped.
pub fn finished_text(report: &str, mode: Mode) -> (r: String)
    ensures
        r@ == "Benchmark finished. Report: "@ + report@ + "."@ + if mode == Mode::Synthetic {
            " llama-server is still stopped; start it when you need it."@
        } else {
            ""@
        },
{
    let mut out: String = "Benchmark finished. Report: ".to_owned();
    out.append(report);
    out.append(".");
    match mode {
        Mode::Synthetic => {
            out.append(" llama-server is still stopped; start it when you need it.");
        },
        Mode::Live => {
            out.append("");
        },
    }
    out
}

} // verus!
